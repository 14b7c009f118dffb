//! The map of a city: colours of the means of transport, the lines, marks and labels that the map
//! service is to draw, the legend, and which groups of sights get a map of their own.

use vstd::prelude::*;

use crate::amap;
use crate::cluster;
use crate::json;
use crate::legend;
use crate::legend::{LegendItem, Mark};
use crate::llm;
use crate::overview;
use crate::overview::RouteSeg;
use crate::text;

verus! {

// ---- Means of transport ----

pub open spec fn is_transit(m: Seq<char>) -> bool {
    m == "公共交通"@ || m == "地铁"@ || m == "公交"@
}

pub open spec fn is_drive(m: Seq<char>) -> bool {
    m == "打车"@ || m == "驾车"@
}

pub open spec fn is_walk(m: Seq<char>) -> bool {
    m == "步行骑行"@ || m == "步行"@ || m == "骑行"@ || m == "自行车"@
}

/// The colour of a means of transport.
pub open spec fn color_of(mode: Option<Seq<char>>) -> Seq<char> {
    match mode {
        Some(m) => if is_transit(m) {
            "1D4ED8"@
        } else if is_drive(m) {
            "4C1D95"@
        } else if is_walk(m) {
            "164E63"@
        } else {
            "0F172A"@
        },
        None => "0F172A"@,
    }
}

/// What a means of transport is called in the legend.
pub open spec fn display_of(mode: Option<Seq<char>>) -> Option<Seq<char>> {
    match mode {
        Some(m) => if is_transit(m) {
            Some("公共交通"@)
        } else if is_drive(m) {
            Some("打车"@)
        } else if is_walk(m) {
            Some("步行/骑行"@)
        } else {
            None
        },
        None => None,
    }
}

fn transit_mode(m: &str) -> (b: bool)
    ensures
        b == is_transit(m@),
{
    text::same(m, "公共交通") || text::same(m, "地铁") || text::same(m, "公交")
}

fn drive_mode(m: &str) -> (b: bool)
    ensures
        b == is_drive(m@),
{
    text::same(m, "打车") || text::same(m, "驾车")
}

fn walk_mode(m: &str) -> (b: bool)
    ensures
        b == is_walk(m@),
{
    text::same(m, "步行骑行") || text::same(m, "步行") || text::same(m, "骑行") || text::same(
        m,
        "自行车",
    )
}

/// The colour of a means of transport.
pub fn mode_color_hex(mode: &Option<String>) -> (r: &'static str)
    ensures
        r@ == color_of(llm::opt_text(*mode)),
{
    match mode {
        Some(m) => if transit_mode(m.as_str()) {
            "1D4ED8"
        } else if drive_mode(m.as_str()) {
            "4C1D95"
        } else if walk_mode(m.as_str()) {
            "164E63"
        } else {
            "0F172A"
        },
        None => "0F172A",
    }
}

/// What a means of transport is called in the legend.
pub fn mode_display(mode: &Option<String>) -> (r: Option<&'static str>)
    ensures
        overview::str_view(r) == display_of(llm::opt_text(*mode)),
{
    match mode {
        Some(m) => if transit_mode(m.as_str()) {
            Some("公共交通")
        } else if drive_mode(m.as_str()) {
            Some("打车")
        } else if walk_mode(m.as_str()) {
            Some("步行/骑行")
        } else {
            None
        },
        None => None,
    }
}

/// Means of transport with one name in the legend have one colour on the map.
pub proof fn law_names_go_with_colours(a: Option<Seq<char>>, b: Option<Seq<char>>)
    requires
        display_of(a) == display_of(b),
    ensures
        color_of(a) == color_of(b),
{
    reveal_strlit("公共交通");
    reveal_strlit("打车");
    reveal_strlit("步行/骑行");
    assert("公共交通"@.len() == 4 && "打车"@.len() == 2 && "步行/骑行"@.len() == 5);
}

// ---- Colours ----

pub open spec fn hex_digit(c: char) -> Option<int> {
    if '0' <= c && c <= '9' {
        Some(c as int - '0' as int)
    } else if 'a' <= c && c <= 'f' {
        Some(c as int - 'a' as int + 10)
    } else if 'A' <= c && c <= 'F' {
        Some(c as int - 'A' as int + 10)
    } else {
        None
    }
}

/// The number that hexadecimal digits stand for.
pub open spec fn hex_value(s: Seq<char>) -> Option<int>
    decreases s.len(),
{
    if s.len() == 0 {
        Some(0)
    } else {
        match hex_value(s.drop_last()) {
            Some(v) => match hex_digit(s.last()) {
                Some(d) => Some(v * 16 + d),
                None => None,
            },
            None => None,
        }
    }
}

/// The number that a text is in hexadecimal, where it is one of 32 bits.
pub open spec fn parsed_hex(s: Seq<char>) -> Option<int> {
    let digits = if s.len() > 0 && s[0] == '+' {
        s.drop_first()
    } else {
        s
    };
    if digits.len() == 0 {
        None
    } else {
        match hex_value(digits) {
            Some(v) => if v <= u32::MAX {
                Some(v)
            } else {
                None
            },
            None => None,
        }
    }
}

/// The colour that a text stands for, without transparency; near black where it stands for none.
pub open spec fn paint_of(hex: Seq<char>) -> int {
    let v = match parsed_hex(hex) {
        Some(v) => v,
        None => 0x0F172A,
    };
    (v % 0x1000000) * 256 + 255
}

fn digit_value(c: char) -> (r: Option<u64>)
    ensures
        match r {
            Some(d) => hex_digit(c) == Some(d as int) && d < 16,
            None => hex_digit(c) is None,
        },
{
    if '0' <= c && c <= '9' {
        Some(c as u64 - '0' as u64)
    } else if 'a' <= c && c <= 'f' {
        Some(c as u64 - 'a' as u64 + 10)
    } else if 'A' <= c && c <= 'F' {
        Some(c as u64 - 'A' as u64 + 10)
    } else {
        None
    }
}

proof fn lemma_hex_grows(s: Seq<char>, n: int)
    requires
        0 <= n <= s.len(),
    ensures
        hex_value(s.take(n)) is None ==> hex_value(s) is None,
        hex_value(s) is Some && hex_value(s.take(n)) is Some ==> 0 <= hex_value(s.take(n))->0
            <= hex_value(s)->0,
    decreases s.len() - n,
{
    lemma_hex_positive(s.take(n));
    if n < s.len() {
        lemma_hex_grows(s, n + 1);
        assert(s.take(n + 1).drop_last() == s.take(n));
    } else {
        assert(s.take(n) == s);
    }
}

proof fn lemma_hex_positive(s: Seq<char>)
    ensures
        hex_value(s) is Some ==> hex_value(s)->0 >= 0,
    decreases s.len(),
{
    if s.len() > 0 {
        lemma_hex_positive(s.drop_last());
    }
}

/// The colour that a text stands for: red, green, blue and full opacity.
pub fn hex_to_rgba(hex: &str) -> (r: u32)
    ensures
        r == paint_of(hex@),
{
    let v = text::chars_of(hex);
    let start: usize = if v.len() > 0 && v[0] == '+' {
        1
    } else {
        0
    };
    let ghost digits = hex@.skip(start as int);
    assert(start == 1 ==> digits =~= hex@.drop_first());
    assert(start == 0 ==> digits =~= hex@);
    let mut n: u64 = 0x0F172A;
    if v.len() > start {
        let mut value: u64 = 0;
        let mut good = true;
        let mut i: usize = start;
        while good && i < v.len()
            invariant
                v@ == hex@,
                start <= i <= v@.len(),
                digits == hex@.skip(start as int),
                good ==> hex_value(digits.take(i - start)) == Some(value as int) && value
                    <= u32::MAX,
                !good ==> (match hex_value(digits) {
                    Some(x) => x > u32::MAX,
                    None => true,
                }),
            decreases v@.len() - i, (if good { 1int } else { 0int }),
        {
            proof {
                assert(digits.take(i - start + 1).drop_last() == digits.take(i - start));
                assert(digits.take(i - start + 1).last() == v@[i as int]);
                lemma_hex_grows(digits, i - start + 1);
            }
            match digit_value(v[i]) {
                Some(d) => {
                    value = value * 16 + d;
                    if value > u32::MAX as u64 {
                        good = false;
                    }
                    i = i + 1;
                },
                None => {
                    good = false;
                },
            }
        }
        if good {
            assert(digits.take(digits.len() as int) == digits);
            n = value;
        }
    }
    ((n % 0x1000000) * 256 + 255) as u32
}

/// The colour of every means of transport can be read.
pub proof fn law_colours_are_read(mode: Option<Seq<char>>)
    ensures
        parsed_hex(color_of(mode)) is Some,
        parsed_hex(color_of(mode))->0 < 0x1000000,
{
    reveal_strlit("1D4ED8");
    reveal_strlit("4C1D95");
    reveal_strlit("164E63");
    reveal_strlit("0F172A");
    lemma_six_digits("1D4ED8"@);
    lemma_six_digits("4C1D95"@);
    lemma_six_digits("164E63"@);
    lemma_six_digits("0F172A"@);
}

proof fn lemma_six_digits(s: Seq<char>)
    requires
        s.len() == 6,
        forall|i: int| 0 <= i < 6 ==> hex_digit(#[trigger] s[i]) is Some,
    ensures
        hex_value(s) == Some(
            hex_digit(s[0])->0 * 0x100000 + hex_digit(s[1])->0 * 0x10000 + hex_digit(s[2])->0 * 0x1000
                + hex_digit(s[3])->0 * 0x100 + hex_digit(s[4])->0 * 0x10 + hex_digit(s[5])->0,
        ),
{
    assert(hex_digit(s[0]) is Some && hex_digit(s[1]) is Some && hex_digit(s[2]) is Some);
    assert(hex_digit(s[3]) is Some && hex_digit(s[4]) is Some && hex_digit(s[5]) is Some);
    assert(s.take(6) =~= s);
    assert(s.take(6).drop_last() =~= s.take(5));
    assert(s.take(5).drop_last() =~= s.take(4));
    assert(s.take(4).drop_last() =~= s.take(3));
    assert(s.take(3).drop_last() =~= s.take(2));
    assert(s.take(2).drop_last() =~= s.take(1));
    assert(s.take(1).drop_last() =~= s.take(0));
    assert(hex_value(s.take(0)) == Some(0int));
    assert(hex_value(s.take(1)) == Some(hex_digit(s[0])->0));
    assert(hex_value(s.take(2)) == Some(hex_value(s.take(1))->0 * 16 + hex_digit(s[1])->0));
    assert(hex_value(s.take(3)) == Some(hex_value(s.take(2))->0 * 16 + hex_digit(s[2])->0));
    assert(hex_value(s.take(4)) == Some(hex_value(s.take(3))->0 * 16 + hex_digit(s[3])->0));
    assert(hex_value(s.take(5)) == Some(hex_value(s.take(4))->0 * 16 + hex_digit(s[4])->0));
    assert(hex_value(s.take(6)) == Some(hex_value(s.take(5))->0 * 16 + hex_digit(s[5])->0));
}

// ---- Lines ----

/// A way whose line is known.
pub struct RouteData {
    pub from: String,
    pub to: String,
    pub mode: Option<String>,
    pub polyline: String,
}

#[verifier::ext_equal]
pub struct RouteDataModel {
    pub from: Seq<char>,
    pub to: Seq<char>,
    pub mode: Option<Seq<char>>,
    pub polyline: Seq<char>,
}

impl View for RouteData {
    type V = RouteDataModel;

    open spec fn view(&self) -> RouteDataModel {
        RouteDataModel {
            from: self.from@,
            to: self.to@,
            mode: llm::opt_text(self.mode),
            polyline: self.polyline@,
        }
    }
}

pub open spec fn data_models(routes: Seq<RouteData>) -> Seq<RouteDataModel> {
    routes.map_values(|r: RouteData| r@)
}

/// Whether a way goes on where the one before it ends, in its colour.
pub open spec fn goes_on(routes: Seq<overview::RouteModel>, i: int) -> bool {
    i > 0 && routes[i - 1].to == routes[i].from && color_of(routes[i].transport) == color_of(
        routes[i - 1].transport,
    )
}

/// How many lines the first `n` ways make when those that go on are drawn as one.
pub open spec fn path_groups(routes: Seq<overview::RouteModel>, n: int) -> nat
    decreases n,
{
    if n <= 0 {
        0
    } else {
        path_groups(routes, n - 1) + (if goes_on(routes, n - 1) {
            0nat
        } else {
            1
        })
    }
}

/// How many lines the ways make when those that go on are drawn as one.
pub fn estimate_path_groups(routes: &Vec<RouteSeg>) -> (n: usize)
    ensures
        n == path_groups(overview::route_models(routes@), routes@.len() as int),
{
    let ghost all = overview::route_models(routes@);
    let mut n: usize = 0;
    let mut i: usize = 0;
    while i < routes.len()
        invariant
            i <= routes@.len(),
            all == overview::route_models(routes@),
            n == path_groups(all, i as int),
            n <= i,
        decreases routes@.len() - i,
    {
        assert(all[i as int] == routes@[i as int]@);
        let on = if i > 0 {
            assert(all[i - 1] == routes@[i - 1]@);
            text::same(routes[i - 1].to.as_str(), routes[i].from.as_str()) && text::same(
                mode_color_hex(&routes[i].transport),
                mode_color_hex(&routes[i - 1].transport),
            )
        } else {
            false
        };
        if !on {
            n = n + 1;
        }
        i = i + 1;
    }
    n
}

/// The lines so far: those that are done, and colour, course and end of the one that grows.
#[verifier::ext_equal]
pub struct PathsModel {
    pub done: Seq<Seq<char>>,
    pub color: Seq<char>,
    pub line: Seq<char>,
    pub end: Seq<char>,
}

/// A line as the map service is told to draw it.
pub open spec fn path_text(color: Seq<char>, line: Seq<char>) -> Seq<char> {
    "8,0x"@ + color + ",0.9,,:"@ + line
}

/// The lines after a way with the thinned course `seg`: it goes on with the line that grows, where
/// it begins at its end and has its colour; or else it begins a new one.
pub open spec fn with_way(p: PathsModel, r: RouteDataModel, seg: Seq<char>) -> PathsModel {
    let color = color_of(r.mode);
    if p.line.len() > 0 && p.end == r.from && color == p.color {
        PathsModel { done: p.done, color: p.color, line: p.line + ";"@ + seg, end: r.to }
    } else if p.line.len() > 0 {
        PathsModel {
            done: p.done.push(path_text(p.color, p.line)),
            color,
            line: seg,
            end: r.to,
        }
    } else {
        PathsModel { done: p.done, color, line: seg, end: r.to }
    }
}

/// The lines after the first `n` ways.
pub open spec fn paths_after(routes: Seq<RouteDataModel>, segs: Seq<Seq<char>>, n: int) -> PathsModel
    decreases n,
{
    if n <= 0 {
        PathsModel { done: Seq::empty(), color: ""@, line: Seq::empty(), end: Seq::empty() }
    } else {
        with_way(paths_after(routes, segs, n - 1), routes[n - 1], segs[n - 1])
    }
}

/// The lines that the ways make.
pub open spec fn paths_of(routes: Seq<RouteDataModel>, segs: Seq<Seq<char>>) -> Seq<Seq<char>> {
    let p = paths_after(routes, segs, routes.len() as int);
    if p.line.len() > 0 {
        p.done.push(path_text(p.color, p.line))
    } else {
        p.done
    }
}

fn path_words(color: &str, line: &str) -> (r: String)
    ensures
        r@ == path_text(color@, line@),
{
    let mut s = text::copy_text("8,0x");
    s.append(color);
    s.append(",0.9,,:");
    s.append(line);
    s
}

/// The lines as the map service is told to draw them; `segs` are the thinned courses of the ways.
/// The service draws no more than four.
pub fn build_paths_param(routes: &Vec<RouteData>, segs: &Vec<String>) -> (r: Result<String, String>)
    requires
        routes@.len() == segs@.len(),
    ensures
        ({
            let parts = paths_of(data_models(routes@), text::views(segs@));
            match r {
                Ok(s) => parts.len() <= 4 && s@ == text::joined(parts, "|"@),
                Err(e) => parts.len() > 4 && e@ == "合并后仍有 "@ + text::dec(parts.len())
                    + " 条路线，超过高德静态地图上限（4）"@,
            }
        }),
{
    let ghost all = data_models(routes@);
    let ghost courses = text::views(segs@);
    let mut parts: Vec<String> = Vec::new();
    let mut color: &'static str = "";
    let mut line = String::new();
    let mut end = String::new();
    let mut i: usize = 0;
    assert(text::views(parts@) =~= Seq::<Seq<char>>::empty());
    assert(line@ =~= Seq::<char>::empty() && end@ =~= Seq::<char>::empty());
    while i < routes.len()
        invariant
            i <= routes@.len(),
            routes@.len() == segs@.len(),
            all == data_models(routes@),
            courses == text::views(segs@),
            paths_after(all, courses, i as int) == (PathsModel {
                done: text::views(parts@),
                color: color@,
                line: line@,
                end: end@,
            }),
        decreases routes@.len() - i,
    {
        let r = &routes[i];
        let seg = segs[i].as_str();
        assert(all[i as int] == r@);
        assert(courses[i as int] == seg@);
        let c = mode_color_hex(&r.mode);
        let growing = text::char_count(line.as_str()) > 0;
        if growing && text::same(end.as_str(), r.from.as_str()) && text::same(c, color) {
            line.append(";");
            line.append(seg);
        } else {
            if growing {
                let s = path_words(color, line.as_str());
                proof {
                    text::lemma_views_push(parts@, s);
                }
                parts.push(s);
            }
            color = c;
            line = text::copy_text(seg);
        }
        end = text::copy_text(r.to.as_str());
        i = i + 1;
    }
    if text::char_count(line.as_str()) > 0 {
        let s = path_words(color, line.as_str());
        proof {
            text::lemma_views_push(parts@, s);
        }
        parts.push(s);
    }
    assert(parts@.len() == text::views(parts@).len());
    if parts.len() > 4 {
        let mut e = text::copy_text("合并后仍有 ");
        e.append(text::number(parts.len() as u64).as_str());
        e.append(" 条路线，超过高德静态地图上限（4）");
        return Err(e);
    }
    Ok(text::join(&parts, "|"))
}

/// Where every way has a course and keeps its means of transport, the ways make as many lines as
/// was foreseen.
pub proof fn law_lines_are_foreseen(
    routes: Seq<overview::RouteModel>,
    data: Seq<RouteDataModel>,
    segs: Seq<Seq<char>>,
)
    requires
        data.len() == routes.len(),
        segs.len() == routes.len(),
        forall|i: int| 0 <= i < segs.len() ==> (#[trigger] segs[i]).len() > 0,
        forall|i: int|
            0 <= i < data.len() ==> (#[trigger] data[i]).from == routes[i].from && data[i].to
                == routes[i].to && data[i].mode == routes[i].transport,
    ensures
        paths_of(data, segs).len() == path_groups(routes, routes.len() as int),
{
    lemma_lines_are_foreseen(routes, data, segs, routes.len() as int);
}

proof fn lemma_lines_are_foreseen(
    routes: Seq<overview::RouteModel>,
    data: Seq<RouteDataModel>,
    segs: Seq<Seq<char>>,
    n: int,
)
    requires
        0 <= n <= routes.len(),
        data.len() == routes.len(),
        segs.len() == routes.len(),
        forall|i: int| 0 <= i < segs.len() ==> (#[trigger] segs[i]).len() > 0,
        forall|i: int|
            0 <= i < data.len() ==> (#[trigger] data[i]).from == routes[i].from && data[i].to
                == routes[i].to && data[i].mode == routes[i].transport,
    ensures
        ({
            let p = paths_after(data, segs, n);
            &&& n == 0 ==> p.line.len() == 0 && p.done.len() == 0
            &&& n > 0 ==> p.line.len() > 0 && p.done.len() + 1 == path_groups(routes, n)
                && p.color == color_of(routes[n - 1].transport) && p.end == routes[n - 1].to
        }),
    decreases n,
{
    if n > 0 {
        lemma_lines_are_foreseen(routes, data, segs, n - 1);
        assert(segs[n - 1].len() > 0);
        assert(data[n - 1].from == routes[n - 1].from);
        assert(path_groups(routes, 0) == 0);
        let before = paths_after(data, segs, n - 1);
        let p = paths_after(data, segs, n);
        assert(p == with_way(before, data[n - 1], segs[n - 1]));
        if n > 1 {
            assert(goes_on(routes, n - 1) == (before.end == data[n - 1].from && color_of(
                data[n - 1].mode,
            ) == before.color));
        }
    }
}

// ---- The size of the lines ----

/// How many bytes the lines may take in an address.
pub const PATHS_BUDGET: usize = 6000;

/// How often the lines are thinned further.
pub const BUDGET_MAX_ITER: u32 = 8;

/// What follows the `tries`-th attempt (from 0) to write the lines down.
pub enum PathsStep {
    Done(String),
    /// The lines are thinned further.
    Thin,
    Fail(String),
}

#[verifier::ext_equal]
pub enum PathsStepModel {
    Done(Seq<char>),
    Thin,
    Fail(Seq<char>),
}

impl View for PathsStep {
    type V = PathsStepModel;

    open spec fn view(&self) -> PathsStepModel {
        match *self {
            PathsStep::Done(s) => PathsStepModel::Done(s@),
            PathsStep::Thin => PathsStepModel::Thin,
            PathsStep::Fail(s) => PathsStepModel::Fail(s@),
        }
    }
}

pub open spec fn paths_step(tries: u32, built: Result<Seq<char>, Seq<char>>) -> PathsStepModel {
    match built {
        Ok(s) => if text::text_bytes(s) <= PATHS_BUDGET {
            PathsStepModel::Done(s)
        } else if tries < BUDGET_MAX_ITER {
            PathsStepModel::Thin
        } else {
            PathsStepModel::Fail(
                "路线坐标抽稀后 paths 参数仍超 URL 长度预算（6000 字节），请减少路线"@,
            )
        },
        Err(e) => PathsStepModel::Fail(e),
    }
}

pub open spec fn built_view(r: Result<String, String>) -> Result<Seq<char>, Seq<char>> {
    match r {
        Ok(s) => Ok(s@),
        Err(e) => Err(e@),
    }
}

/// What follows the `tries`-th attempt (from 0) to write the lines down.
pub fn after_paths(tries: u32, built: &Result<String, String>) -> (r: PathsStep)
    ensures
        r@ == paths_step(tries, built_view(*built)),
{
    match built {
        Ok(s) => if text::fits_bytes(s.as_str(), PATHS_BUDGET) {
            PathsStep::Done(text::copy_text(s.as_str()))
        } else if tries < BUDGET_MAX_ITER {
            PathsStep::Thin
        } else {
            PathsStep::Fail(
                text::copy_text(
                    "路线坐标抽稀后 paths 参数仍超 URL 长度预算（6000 字节），请减少路线",
                ),
            )
        },
        Err(e) => PathsStep::Fail(text::copy_text(e.as_str())),
    }
}

/// Lines that are drawn fit into the address, and are not thinned without end.
pub proof fn law_lines_fit(tries: u32, built: Result<Seq<char>, Seq<char>>)
    ensures
        match paths_step(tries, built) {
            PathsStepModel::Done(s) => built == Ok::<Seq<char>, Seq<char>>(s) && text::text_bytes(s)
                <= PATHS_BUDGET,
            PathsStepModel::Thin => tries < BUDGET_MAX_ITER,
            PathsStepModel::Fail(_) => true,
        },
{
}

// ---- The map ----

/// A sight; `place` is its longitude and latitude with six decimals and a comma between them.
pub struct PoiNode {
    pub name: String,
    pub place: String,
}

#[verifier::ext_equal]
pub struct PoiModel {
    pub name: Seq<char>,
    pub place: Seq<char>,
}

impl View for PoiNode {
    type V = PoiModel;

    open spec fn view(&self) -> PoiModel {
        PoiModel { name: self.name@, place: self.place@ }
    }
}

pub open spec fn poi_models(pois: Seq<PoiNode>) -> Seq<PoiModel> {
    pois.map_values(|p: PoiNode| p@)
}

pub open spec fn poi_names(pois: Seq<PoiModel>) -> Seq<Seq<char>> {
    pois.map_values(|p: PoiModel| p.name)
}

/// A character as it may stand in a label: those that part labels become spaces.
pub open spec fn label_char(c: char) -> char {
    if c == ',' || c == ':' || c == '|' || c == ';' {
        ' '
    } else {
        c
    }
}

/// A name as it may stand in a label.
pub open spec fn clean_name(s: Seq<char>) -> Seq<char> {
    s.map_values(|c: char| label_char(c))
}

/// A name as it may stand in a label.
pub fn clean_label_name(name: &str) -> (r: String)
    ensures
        r@ == clean_name(name@),
{
    let v = text::chars_of(name);
    let mut out = String::new();
    let mut i: usize = 0;
    assert(out@ =~= clean_name(name@).take(0));
    while i < v.len()
        invariant
            v@ == name@,
            i <= v@.len(),
            out@ == clean_name(name@).take(i as int),
        decreases v@.len() - i,
    {
        let c = v[i];
        let d = if c == ',' || c == ':' || c == '|' || c == ';' {
            ' '
        } else {
            c
        };
        out.push(d);
        assert(out@ =~= clean_name(name@).take(i + 1));
        i = i + 1;
    }
    assert(clean_name(name@).take(name@.len() as int) =~= clean_name(name@));
    out
}

/// Labels are parted by nothing that stands in a name.
pub proof fn law_names_do_not_part_labels(s: Seq<char>, i: int)
    requires
        0 <= i < s.len(),
    ensures
        clean_name(s).len() == s.len(),
        clean_name(s)[i] != ',' && clean_name(s)[i] != ':' && clean_name(s)[i] != '|' && clean_name(
            s,
        )[i] != ';',
{
}

/// The number by which a sight is marked: from 1 to 9, then 0.
pub open spec fn mark_number(i: int) -> Seq<char> {
    if i < 9 {
        text::dec((i + 1) as nat)
    } else {
        "0"@
    }
}

fn number_mark(i: usize) -> (r: String)
    ensures
        r@ == mark_number(i as int),
{
    if i < 9 {
        text::number(i as u64 + 1)
    } else {
        text::copy_text("0")
    }
}

/// The marks of numbered sights.
pub open spec fn numbered_marks(pois: Seq<PoiModel>) -> Seq<Seq<char>> {
    Seq::new(
        pois.len(),
        |i: int| "mid,0xDC2626,"@ + mark_number(i) + ":"@ + pois[i].place,
    )
}

pub open spec fn places(pois: Seq<PoiModel>) -> Seq<Seq<char>> {
    pois.map_values(|p: PoiModel| p.place)
}

/// The labels of sights that are marked by name.
pub open spec fn name_labels(pois: Seq<PoiModel>) -> Seq<Seq<char>> {
    pois.map_values(
        |p: PoiModel| clean_name(p.name) + ",0,1,14,0xFFFFFF,0xDC2626:"@ + p.place,
    )
}

/// The marks that the map service is to draw.
pub open spec fn markers_text(pois: Seq<PoiModel>, numbered: bool) -> Seq<char> {
    if numbered {
        text::joined(numbered_marks(pois), "|"@)
    } else {
        "mid,0xDC2626,:"@ + text::joined(places(pois), ";"@)
    }
}

/// The labels that the map service is to draw.
pub open spec fn labels_text(pois: Seq<PoiModel>, numbered: bool) -> Seq<char> {
    if numbered {
        Seq::empty()
    } else {
        text::joined(name_labels(pois), "|"@)
    }
}

fn write_markers(pois: &Vec<PoiNode>, numbered: bool) -> (r: String)
    ensures
        r@ == markers_text(poi_models(pois@), numbered),
{
    let ghost all = poi_models(pois@);
    let mut parts: Vec<String> = Vec::new();
    let ghost goal = if numbered {
        numbered_marks(all)
    } else {
        places(all)
    };
    let mut i: usize = 0;
    assert(text::views(parts@) =~= goal.take(0));
    while i < pois.len()
        invariant
            i <= pois@.len(),
            all == poi_models(pois@),
            goal == (if numbered {
                numbered_marks(all)
            } else {
                places(all)
            }),
            text::views(parts@) == goal.take(i as int),
        decreases pois@.len() - i,
    {
        assert(all[i as int] == pois@[i as int]@);
        let s = if numbered {
            let mut m = text::copy_text("mid,0xDC2626,");
            m.append(number_mark(i).as_str());
            m.append(":");
            m.append(pois[i].place.as_str());
            m
        } else {
            text::copy_text(pois[i].place.as_str())
        };
        assert(goal[i as int] == s@);
        proof {
            text::lemma_views_push(parts@, s);
        }
        parts.push(s);
        assert(text::views(parts@) =~= goal.take(i + 1));
        i = i + 1;
    }
    assert(goal.take(goal.len() as int) =~= goal);
    if numbered {
        text::join(&parts, "|")
    } else {
        let mut s = text::copy_text("mid,0xDC2626,:");
        s.append(text::join(&parts, ";").as_str());
        s
    }
}

fn write_labels(pois: &Vec<PoiNode>, numbered: bool) -> (r: String)
    ensures
        r@ == labels_text(poi_models(pois@), numbered),
{
    if numbered {
        let s = String::new();
        assert(s@ =~= Seq::<char>::empty());
        return s;
    }
    let ghost all = poi_models(pois@);
    let ghost goal = name_labels(all);
    let mut parts: Vec<String> = Vec::new();
    let mut i: usize = 0;
    assert(text::views(parts@) =~= goal.take(0));
    while i < pois.len()
        invariant
            i <= pois@.len(),
            all == poi_models(pois@),
            goal == name_labels(all),
            text::views(parts@) == goal.take(i as int),
        decreases pois@.len() - i,
    {
        assert(all[i as int] == pois@[i as int]@);
        let mut s = clean_label_name(pois[i].name.as_str());
        s.append(",0,1,14,0xFFFFFF,0xDC2626:");
        s.append(pois[i].place.as_str());
        assert(goal[i as int] == s@);
        proof {
            text::lemma_views_push(parts@, s);
        }
        parts.push(s);
        assert(text::views(parts@) =~= goal.take(i + 1));
        i = i + 1;
    }
    assert(goal.take(goal.len() as int) =~= goal);
    text::join(&parts, "|")
}

/// The ways whose two ends are among names.
pub open spec fn routes_within(routes: Seq<RouteDataModel>, names: Seq<Seq<char>>) -> Seq<
    RouteDataModel,
>
    decreases routes.len(),
{
    if routes.len() == 0 {
        Seq::empty()
    } else {
        let before = routes_within(routes.drop_last(), names);
        let r = routes.last();
        if names.contains(r.from) && names.contains(r.to) {
            before.push(r)
        } else {
            before
        }
    }
}

fn copy_route(r: &RouteData) -> (c: RouteData)
    ensures
        c@ == r@,
{
    RouteData {
        from: text::copy_text(r.from.as_str()),
        to: text::copy_text(r.to.as_str()),
        mode: llm::copy_opt(&r.mode),
        polyline: text::copy_text(r.polyline.as_str()),
    }
}

fn keep_routes(routes: &Vec<RouteData>, names: &Vec<String>) -> (r: Vec<RouteData>)
    ensures
        data_models(r@) == routes_within(data_models(routes@), text::views(names@)),
{
    let ghost all = data_models(routes@);
    let mut out: Vec<RouteData> = Vec::new();
    let mut i: usize = 0;
    assert(data_models(out@) =~= Seq::<RouteDataModel>::empty());
    while i < routes.len()
        invariant
            i <= routes@.len(),
            all == data_models(routes@),
            data_models(out@) == routes_within(all.take(i as int), text::views(names@)),
        decreases routes@.len() - i,
    {
        let r = &routes[i];
        proof {
            assert(all.take(i + 1).drop_last() =~= all.take(i as int));
            assert(all.take(i + 1).last() == r@);
        }
        if overview::is_listed(names, r.from.as_str()) && overview::is_listed(names, r.to.as_str()) {
            let c = copy_route(r);
            let ghost before = out@;
            out.push(c);
            assert(data_models(out@) =~= data_models(before).push(c@));
        }
        i = i + 1;
    }
    assert(all.take(all.len() as int) =~= all);
    out
}

/// The means of transport in the legend: each once, as it first occurs, with its colour.
pub open spec fn modes_shown(routes: Seq<RouteDataModel>) -> Seq<(Seq<char>, Seq<char>)>
    decreases routes.len(),
{
    if routes.len() == 0 {
        Seq::empty()
    } else {
        let before = modes_shown(routes.drop_last());
        match display_of(routes.last().mode) {
            Some(name) => if names_mode(before, name) {
                before
            } else {
                before.push((name, color_of(routes.last().mode)))
            },
            None => before,
        }
    }
}

pub open spec fn names_mode(modes: Seq<(Seq<char>, Seq<char>)>, name: Seq<char>) -> bool {
    exists|i: int| 0 <= i < modes.len() && (#[trigger] modes[i]).0 == name
}

pub open spec fn str_pairs(v: Seq<(&'static str, &'static str)>) -> Seq<(Seq<char>, Seq<char>)> {
    v.map_values(|p: (&'static str, &'static str)| (p.0@, p.1@))
}

fn list_modes(routes: &Vec<RouteData>) -> (r: Vec<(&'static str, &'static str)>)
    ensures
        str_pairs(r@) == modes_shown(data_models(routes@)),
{
    let ghost all = data_models(routes@);
    let mut out: Vec<(&'static str, &'static str)> = Vec::new();
    let mut i: usize = 0;
    assert(str_pairs(out@) =~= Seq::<(Seq<char>, Seq<char>)>::empty());
    while i < routes.len()
        invariant
            i <= routes@.len(),
            all == data_models(routes@),
            str_pairs(out@) == modes_shown(all.take(i as int)),
        decreases routes@.len() - i,
    {
        let r = &routes[i];
        proof {
            assert(all.take(i + 1).drop_last() =~= all.take(i as int));
            assert(all.take(i + 1).last() == r@);
        }
        match mode_display(&r.mode) {
            Some(name) => {
                let mut known = false;
                let mut k: usize = 0;
                while k < out.len()
                    invariant
                        k <= out@.len(),
                        known == exists|j: int|
                            0 <= j < k && (#[trigger] str_pairs(out@)[j]).0 == name@,
                    decreases out@.len() - k,
                {
                    assert(str_pairs(out@)[k as int].0 == out@[k as int].0@);
                    if text::same(out[k].0, name) {
                        known = true;
                    }
                    k = k + 1;
                }
                assert(known == names_mode(str_pairs(out@), name@));
                if !known {
                    let c = mode_color_hex(&r.mode);
                    let ghost before = out@;
                    out.push((name, c));
                    assert(str_pairs(out@) =~= str_pairs(before).push((name@, c@)));
                }
            },
            None => {},
        }
        i = i + 1;
    }
    assert(all.take(all.len() as int) =~= all);
    out
}

/// The items that say which number is which sight.
pub open spec fn number_items(pois: Seq<PoiModel>) -> Seq<legend::ItemModel> {
    Seq::new(
        pois.len(),
        |i: int|
            legend::ItemModel {
                mark: Mark::Plain,
                text: mark_number(i) + " "@ + pois[i].name,
            },
    )
}

/// The items that say which colour is which means of transport.
pub open spec fn mode_items(modes: Seq<(Seq<char>, Seq<char>)>) -> Seq<legend::ItemModel> {
    modes.map_values(
        |m: (Seq<char>, Seq<char>)|
            legend::ItemModel { mark: Mark::Swatch(paint_of(m.1) as u32), text: m.0 },
    )
}

/// The items of the legend.
pub open spec fn city_items(pois: Seq<PoiModel>, numbered: bool, routes: Seq<RouteDataModel>) -> Seq<
    legend::ItemModel,
> {
    let title = seq![legend::ItemModel { mark: Mark::Plain, text: "图例"@ }];
    (if numbered {
        title + number_items(pois)
    } else {
        title
    }) + mode_items(modes_shown(routes))
}

fn build_items(pois: &Vec<PoiNode>, numbered: bool, routes: &Vec<RouteData>) -> (r: Vec<LegendItem>)
    ensures
        legend::item_models(r@) == city_items(
            poi_models(pois@),
            numbered,
            data_models(routes@),
        ),
{
    let ghost all = poi_models(pois@);
    let mut items: Vec<LegendItem> = Vec::new();
    legend::add_item(&mut items, Mark::Plain, "图例");
    let ghost title = seq![legend::ItemModel { mark: Mark::Plain, text: "图例"@ }];
    assert(legend::item_models(items@) =~= title);
    let ghost mut head = title;
    if numbered {
        let ghost goal = number_items(all);
        let mut i: usize = 0;
        assert(legend::item_models(items@) =~= title + goal.take(0));
        while i < pois.len()
            invariant
                i <= pois@.len(),
                all == poi_models(pois@),
                goal == number_items(all),
                legend::item_models(items@) == title + goal.take(i as int),
            decreases pois@.len() - i,
        {
            assert(all[i as int] == pois@[i as int]@);
            let mut s = number_mark(i);
            s.append(" ");
            s.append(pois[i].name.as_str());
            legend::add_item(&mut items, Mark::Plain, s.as_str());
            assert(goal[i as int].text == s@);
            assert(legend::item_models(items@) =~= title + goal.take(i + 1));
            i = i + 1;
        }
        assert(goal.take(goal.len() as int) =~= goal);
        proof {
            head = title + goal;
        }
    }
    let modes = list_modes(routes);
    let ghost goal = mode_items(str_pairs(modes@));
    let mut k: usize = 0;
    assert(legend::item_models(items@) =~= head + goal.take(0));
    while k < modes.len()
        invariant
            k <= modes@.len(),
            goal == mode_items(str_pairs(modes@)),
            legend::item_models(items@) == head + goal.take(k as int),
        decreases modes@.len() - k,
    {
        let color: u32 = hex_to_rgba(modes[k].1);
        assert(str_pairs(modes@)[k as int] == (modes@[k as int].0@, modes@[k as int].1@));
        legend::add_item(&mut items, Mark::Swatch(color), modes[k].0);
        assert(goal[k as int] == (legend::ItemModel {
            mark: Mark::Swatch(color),
            text: modes@[k as int].0@,
        }));
        assert(legend::item_models(items@) =~= head + goal.take(k + 1));
        k = k + 1;
    }
    assert(goal.take(goal.len() as int) =~= goal);
    items
}

/// The width of a city map.
pub const CITY_WIDTH: i32 = 800;

/// A city map to be drawn.
pub struct CityPlan {
    pub routes: Vec<RouteData>,
    pub markers: String,
    pub labels: String,
    pub items: Vec<LegendItem>,
    /// The height that the legend takes at the foot.
    pub band: i128,
}

/// Whether sights are marked by number: where there are five or more, and a font for the legend.
pub open spec fn is_numbered(pois: int, font: Option<Seq<u8>>) -> bool {
    pois >= 5 && font is Some
}

/// Whether a map is to be drawn as the order for it says.
pub open spec fn is_city_plan(
    plan: CityPlan,
    pois: Seq<PoiModel>,
    routes: Seq<RouteDataModel>,
    font: Option<Seq<u8>>,
) -> bool {
    let within = routes_within(routes, poi_names(pois));
    let numbered = is_numbered(pois.len() as int, font);
    &&& data_models(plan.routes@) == within
    &&& plan.markers@ == markers_text(pois, numbered)
    &&& plan.labels@ == labels_text(pois, numbered)
    &&& legend::item_models(plan.items@) == city_items(pois, numbered, within)
    &&& plan.band == (match font {
        Some(f) => legend::box_height(f, legend::item_models(plan.items@), CITY_WIDTH as int)
            + legend::MARGIN,
        None => 0,
    })
}

fn names_of(pois: &Vec<PoiNode>) -> (r: Vec<String>)
    ensures
        text::views(r@) == poi_names(poi_models(pois@)),
{
    let ghost all = poi_names(poi_models(pois@));
    let mut out: Vec<String> = Vec::new();
    let mut i: usize = 0;
    assert(text::views(out@) =~= all.take(0));
    while i < pois.len()
        invariant
            i <= pois@.len(),
            all == poi_names(poi_models(pois@)),
            text::views(out@) == all.take(i as int),
        decreases pois@.len() - i,
    {
        let s = text::copy_text(pois[i].name.as_str());
        proof {
            text::lemma_views_push(out@, s);
        }
        out.push(s);
        assert(text::views(out@) =~= all.take(i + 1));
        i = i + 1;
    }
    assert(all.take(all.len() as int) =~= all);
    out
}

pub open spec fn font_bytes(font: Option<Vec<u8>>) -> Option<Seq<u8>> {
    match font {
        Some(f) => Some(f@),
        None => None,
    }
}

/// A city map to be drawn: only the ways whose two ends are on it are.
pub fn draw_city_map(pois: &Vec<PoiNode>, routes: &Vec<RouteData>, font: &Option<Vec<u8>>) -> (r:
    CityPlan)
    ensures
        is_city_plan(r, poi_models(pois@), data_models(routes@), font_bytes(*font)),
{
    let names = names_of(pois);
    let within = keep_routes(routes, &names);
    let numbered = match font {
        Some(_) => pois.len() >= 5,
        None => false,
    };
    let items = build_items(pois, numbered, &within);
    let band = match font {
        Some(f) => legend::flow_legend_band(&items, f, CITY_WIDTH),
        None => 0,
    };
    CityPlan {
        markers: write_markers(pois, numbered),
        labels: write_labels(pois, numbered),
        routes: within,
        items,
        band,
    }
}

/// What is told where a map would not be that of a city.
pub const TOO_LARGE: &'static str = "范围过大（可能跨省/跨大区）：城市图装不下。请改用 generate_overview_map 画总览，或把 pois 缩小到同一城市/片区后重试";

/// The highest zoom level that is tried.
pub const MAX_ZOOM: u8 = 17;

/// The lowest zoom level at which a map is that of a city.
pub const CITY_ZOOM: u8 = 8;

/// The highest zoom level at which a map fits, as `fits` has it; the lowest where it fits at none.
pub fn compute_zoom_fit<F: Fn(u8) -> bool>(fits: F) -> (z: u8)
    requires
        forall|a: u8| 1 <= a <= MAX_ZOOM ==> #[trigger] call_requires(fits, (a,)),
    ensures
        1 <= z <= MAX_ZOOM,
        forall|a: u8| z < a <= MAX_ZOOM ==> #[trigger] call_ensures(fits, (a,), false),
        call_ensures(fits, (z,), true) || (z == 1 && call_ensures(fits, (z,), false)),
{
    let mut a: u8 = MAX_ZOOM;
    while a > 1
        invariant
            1 <= a <= MAX_ZOOM,
            forall|b: u8| 1 <= b <= MAX_ZOOM ==> #[trigger] call_requires(fits, (b,)),
            forall|b: u8| a < b <= MAX_ZOOM ==> #[trigger] call_ensures(fits, (b,), false),
        decreases a,
    {
        if fits(a) {
            return a;
        }
        a = a - 1;
    }
    let _ = fits(a);
    a
}

/// Whether a map at a zoom level is still that of a city.
pub fn check_zoom(zoom: u8) -> (r: Result<(), &'static str>)
    ensures
        match r {
            Ok(_) => zoom >= CITY_ZOOM,
            Err(e) => zoom < CITY_ZOOM && e@ == TOO_LARGE@,
        },
{
    if zoom < CITY_ZOOM {
        Err(TOO_LARGE)
    } else {
        Ok(())
    }
}

/// Longitude and latitude in one part of a line; none where one of them is missing.
pub open spec fn point_text(part: Seq<char>) -> Option<(Seq<char>, Seq<char>)> {
    let f = text::split_at_char(part, ',');
    if f.len() >= 2 {
        Some((text::trimmed(f[0]), text::trimmed(f[1])))
    } else {
        None
    }
}

pub open spec fn point_texts(parts: Seq<Seq<char>>) -> Seq<(Seq<char>, Seq<char>)>
    decreases parts.len(),
{
    if parts.len() == 0 {
        Seq::empty()
    } else {
        let before = point_texts(parts.drop_last());
        match point_text(parts.last()) {
            Some(p) => before.push(p),
            None => before,
        }
    }
}

/// The points of a line, whose parts semicolons separate, as they are written.
pub fn parse_polyline(line: &str) -> (r: Vec<(String, String)>)
    ensures
        cluster::pair_views(r@) == point_texts(text::split_at_char(line@, ';')),
{
    let parts = text::split(line, ';');
    let ghost all = text::views(parts@);
    let mut out: Vec<(String, String)> = Vec::new();
    let mut i: usize = 0;
    assert(cluster::pair_views(out@) =~= point_texts(all.take(0)));
    while i < parts.len()
        invariant
            i <= parts@.len(),
            all == text::views(parts@),
            cluster::pair_views(out@) == point_texts(all.take(i as int)),
        decreases parts@.len() - i,
    {
        proof {
            assert(all.take(i + 1).drop_last() == all.take(i as int));
            assert(all.take(i + 1).last() == parts@[i as int]@);
        }
        let f = text::split(parts[i].as_str(), ',');
        if f.len() >= 2 {
            assert(text::views(f@)[0] == f@[0]@ && text::views(f@)[1] == f@[1]@);
            let p = (text::trim(f[0].as_str()), text::trim(f[1].as_str()));
            let ghost before = cluster::pair_views(out@);
            out.push(p);
            assert(cluster::pair_views(out@) =~= before.push((p.0@, p.1@)));
        }
        i = i + 1;
    }
    assert(all.take(all.len() as int) == all);
    out
}

pub open spec fn given(name: Seq<char>, value: Seq<char>) -> Seq<(Seq<char>, Seq<char>)> {
    if value.len() > 0 {
        seq![(name, value)]
    } else {
        Seq::empty()
    }
}

/// What the map service is asked for a picture.
pub open spec fn picture_pairs(
    key: Seq<char>,
    location: Seq<char>,
    zoom: nat,
    paths: Seq<char>,
    markers: Seq<char>,
    labels: Seq<char>,
) -> Seq<(Seq<char>, Seq<char>)> {
    seq![
        ("size"@, "800*600"@),
        ("location"@, location),
        ("zoom"@, text::dec(zoom)),
        ("key"@, key),
    ] + given("paths"@, paths) + given("markers"@, markers) + given("labels"@, labels)
}

fn add_given(params: &mut Vec<(String, String)>, name: &str, value: &str)
    ensures
        amap::param_views(final(params)@) == amap::param_views(old(params)@) + given(name@, value@),
{
    let ghost before = amap::param_views(params@);
    if text::char_count(value) > 0 {
        amap::add_param(params, name, value);
    }
    assert(amap::param_views(params@) =~= before + given(name@, value@));
}

/// What the map service is asked for a picture.
pub fn picture_params(
    key: &str,
    location: &str,
    zoom: u8,
    paths: &str,
    markers: &str,
    labels: &str,
) -> (r: Vec<(String, String)>)
    ensures
        amap::param_views(r@) == picture_pairs(
            key@,
            location@,
            zoom as nat,
            paths@,
            markers@,
            labels@,
        ),
{
    let mut r: Vec<(String, String)> = Vec::new();
    amap::add_param(&mut r, "size", "800*600");
    amap::add_param(&mut r, "location", location);
    amap::add_param(&mut r, "zoom", text::number(zoom as u64).as_str());
    amap::add_param(&mut r, "key", key);
    assert(amap::param_views(r@) =~= seq![
        ("size"@, "800*600"@),
        ("location"@, location@),
        ("zoom"@, text::dec(zoom as nat)),
        ("key"@, key@),
    ]);
    add_given(&mut r, "paths", paths);
    add_given(&mut r, "markers", markers);
    add_given(&mut r, "labels", labels);
    r
}

/// Whether bytes begin as a PNG picture does.
pub open spec fn is_png_data(b: Seq<u8>) -> bool {
    b.len() >= 4 && b[0] == 0x89 && b[1] == 0x50 && b[2] == 0x4E && b[3] == 0x47
}

/// The picture of a reply; `body` is the reply as text, which is told where it is no picture.
pub fn check_picture(png: &Vec<u8>, body: &str) -> (r: Result<(), String>)
    ensures
        match r {
            Ok(_) => is_png_data(png@),
            Err(e) => !is_png_data(png@) && e@ == "高德未返回图片，响应："@ + body@,
        },
{
    if png.len() >= 4 && png[0] == 0x89 && png[1] == 0x50 && png[2] == 0x4E && png[3] == 0x47 {
        Ok(())
    } else {
        let mut e = text::copy_text("高德未返回图片，响应：");
        e.append(body);
        Err(e)
    }
}

// ---- A call ----

/// The city that a call is about.
pub fn city_name(args: &serde_json::Value) -> (r: String)
    ensures
        r@ == json::json_tree(*args).text_or("city"@, "未知城市"@),
{
    json::text_or(args, "city", "未知城市")
}

/// What is wrong with an order for a city map.
pub open spec fn city_fault(pois: Seq<PoiModel>, routes: Seq<overview::RouteModel>) -> Option<Seq<char>> {
    if pois.len() == 0 {
        Some("城市图生成失败：pois 为空"@)
    } else if pois.len() > 10 {
        Some(
            "城市图生成失败：景点数 "@ + text::dec(pois.len()) + " 超过高德静态地图上限（10），请精简"@,
        )
    } else {
        match overview::lost_route(poi_names(pois), routes, routes.len() as int) {
            Some(f) => Some(
                overview::lost_route_text("城市图生成失败"@, f, "」不在 pois 中"@),
            ),
            None => {
                let n = path_groups(routes, routes.len() as int);
                if n > 4 {
                    Some(
                        "城市图生成失败：路线按交通方式合并后仍有 "@ + text::dec(n)
                            + " 组，超过高德静态地图上限（4），请减少路线或让相邻路段使用同一交通方式"@,
                    )
                } else {
                    None
                }
            },
        }
    }
}

/// The tool that draws city maps.
pub struct GenerateCityMap {
    pub amap_key: String,
    pub font_path: String,
    pub session_id: String,
    /// The number of the last map.
    pub counter: u32,
}

impl GenerateCityMap {
    /// The tool of a session; `names` are those in its directory of maps, and maps are numbered on
    /// from there.
    pub fn new(amap_key: String, font_path: String, session_id: String, names: &Vec<String>) -> (r:
        GenerateCityMap)
        ensures
            r.amap_key@ == amap_key@,
            r.font_path@ == font_path@,
            r.session_id@ == session_id@,
            r.counter == overview::greatest_number(text::views(names@), "city"@),
    {
        GenerateCityMap {
            amap_key,
            font_path,
            session_id,
            counter: overview::scan_max_index(names, "city"),
        }
    }

    /// The number of the next map.
    pub fn next_number(&mut self) -> (n: u32)
        requires
            old(self).counter < u32::MAX,
        ensures
            n == old(self).counter + 1,
            final(self).counter == n,
            final(self).amap_key == old(self).amap_key,
            final(self).font_path == old(self).font_path,
            final(self).session_id == old(self).session_id,
    {
        self.counter = self.counter + 1;
        self.counter
    }

    /// What is wrong with an order for a map, where something is.
    pub fn check(pois: &Vec<PoiNode>, routes: &Vec<RouteSeg>) -> (r: Option<String>)
        ensures
            match city_fault(poi_models(pois@), overview::route_models(routes@)) {
                Some(s) => r is Some && r->0@ == s,
                None => r is None,
            },
    {
        if pois.len() == 0 {
            return Some(text::copy_text("城市图生成失败：pois 为空"));
        }
        if pois.len() > 10 {
            let mut s = text::copy_text("城市图生成失败：景点数 ");
            s.append(text::number(pois.len() as u64).as_str());
            s.append(" 超过高德静态地图上限（10），请精简");
            return Some(s);
        }
        let names = names_of(pois);
        match overview::find_lost_route(&names, routes, "城市图生成失败", "」不在 pois 中") {
            Some(s) => return Some(s),
            None => {},
        }
        let n: usize = estimate_path_groups(routes);
        if n > 4 {
            let mut s = text::copy_text("城市图生成失败：路线按交通方式合并后仍有 ");
            s.append(text::number(n as u64).as_str());
            s.append(" 组，超过高德静态地图上限（4），请减少路线或让相邻路段使用同一交通方式");
            return Some(s);
        }
        None
    }
}

/// The place of the last sight of a name.
pub open spec fn place_named(pois: Seq<PoiModel>, name: Seq<char>) -> Option<Seq<char>>
    decreases pois.len(),
{
    if pois.len() == 0 {
        None
    } else if pois.last().name == name {
        Some(pois.last().place)
    } else {
        place_named(pois.drop_last(), name)
    }
}

/// Where a way begins or ends.
pub fn place_of(pois: &Vec<PoiNode>, name: &str) -> (r: Result<String, String>)
    ensures
        match r {
            Ok(s) => place_named(poi_models(pois@), name@) == Some(s@),
            Err(e) => place_named(poi_models(pois@), name@) is None && e@ == "内部错误：「"@ + name@
                + "」不在坐标表中"@,
        },
{
    let ghost all = poi_models(pois@);
    let mut i: usize = pois.len();
    assert(all.take(all.len() as int) =~= all);
    while i > 0
        invariant
            i <= pois@.len(),
            all == poi_models(pois@),
            place_named(all, name@) == place_named(all.take(i as int), name@),
        decreases i,
    {
        i = i - 1;
        proof {
            assert(all.take(i + 1).drop_last() =~= all.take(i as int));
            assert(all.take(i + 1).last() == pois@[i as int]@);
        }
        if text::same(pois[i].name.as_str(), name) {
            return Ok(text::copy_text(pois[i].place.as_str()));
        }
    }
    let mut e = text::copy_text("内部错误：「");
    e.append(name);
    e.append("」不在坐标表中");
    Err(e)
}

/// A way whose ends are known has a place at each: the check leaves no other.
pub proof fn law_checked_ways_have_places(
    pois: Seq<PoiModel>,
    routes: Seq<overview::RouteModel>,
    i: int,
)
    requires
        city_fault(pois, routes) is None,
        0 <= i < routes.len(),
    ensures
        place_named(pois, routes[i].from) is Some,
        place_named(pois, routes[i].to) is Some,
{
    lemma_no_lost_route(poi_names(pois), routes, routes.len() as int, i);
    lemma_place_named(pois, routes[i].from);
    lemma_place_named(pois, routes[i].to);
}

proof fn lemma_no_lost_route(
    names: Seq<Seq<char>>,
    routes: Seq<overview::RouteModel>,
    n: int,
    i: int,
)
    requires
        0 <= i < n <= routes.len(),
        overview::lost_route(names, routes, n) is None,
    ensures
        names.contains(routes[i].from),
        names.contains(routes[i].to),
    decreases n,
{
    if i < n - 1 {
        lemma_no_lost_route(names, routes, n - 1, i);
    }
}

proof fn lemma_place_named(pois: Seq<PoiModel>, name: Seq<char>)
    requires
        poi_names(pois).contains(name),
    ensures
        place_named(pois, name) is Some,
    decreases pois.len(),
{
    let names = poi_names(pois);
    let i = choose|i: int| 0 <= i < names.len() && names[i] == name;
    if pois.last().name != name {
        let front = poi_names(pois.drop_last());
        assert(front[i] == name);
        lemma_place_named(pois.drop_last(), name);
    }
}

/// A way that the planner has found: the means of transport that it tells goes before the one that
/// was ordered.
pub fn found_way(r: &RouteSeg, line: &str, told: &Option<String>) -> (d: RouteData)
    ensures
        d@ == (RouteDataModel {
            from: r@.from,
            to: r@.to,
            mode: match llm::opt_text(*told) {
                Some(m) => Some(m),
                None => r@.transport,
            },
            polyline: line@,
        }),
{
    let mode = match told {
        Some(m) => Some(text::copy_text(m.as_str())),
        None => llm::copy_opt(&r.transport),
    };
    RouteData {
        from: text::copy_text(r.from.as_str()),
        to: text::copy_text(r.to.as_str()),
        mode,
        polyline: text::copy_text(line),
    }
}

/// What is told of a way that was not found.
pub fn way_failure(r: &RouteSeg, cause: &str) -> (s: String)
    ensures
        s@ == "城市图生成失败：路线「"@ + r.from@ + "→"@ + r.to@ + "」路径规划失败："@ + cause@,
{
    let mut s = text::copy_text("城市图生成失败：路线「");
    s.append(r.from.as_str());
    s.append("→");
    s.append(r.to.as_str());
    s.append("」路径规划失败：");
    s.append(cause);
    s
}

/// What is told where the map could not be drawn.
pub fn map_failure(cause: &str) -> (s: String)
    ensures
        s@ == "城市图生成失败："@ + cause@,
{
    let mut s = text::copy_text("城市图生成失败：");
    s.append(cause);
    s
}

// ---- Maps of groups of sights ----

/// How many sights a group has at least that gets a map of its own.
pub const MIN_CLUSTER: usize = 4;

/// How many groups get a map of their own at most.
pub const MAX_CLUSTER_MAPS: usize = 3;

/// The greatest of the distances of the first `n` points from those behind them.
pub open spec fn widest(d: Seq<Vec<u64>>, n: int) -> u64
    decreases n,
{
    if n <= 0 {
        0
    } else {
        let before = widest(d, n - 1);
        let row = widest_in_row(d[n - 1]@, n, d.len() as int);
        if row > before {
            row
        } else {
            before
        }
    }
}

pub open spec fn widest_in_row(row: Seq<u64>, from: int, to: int) -> u64
    decreases to - from,
{
    if from >= to {
        0
    } else {
        let before = widest_in_row(row, from, to - 1);
        if row[to - 1] > before {
            row[to - 1]
        } else {
            before
        }
    }
}

/// The greatest distance of two points; `d` is read above its diagonal.
pub fn diameter(d: &Vec<Vec<u64>>) -> (r: u64)
    requires
        forall|i: int| 0 <= i < d@.len() ==> (#[trigger] d@[i])@.len() == d@.len(),
    ensures
        r == widest(d@, d@.len() as int),
{
    let mut r: u64 = 0;
    let mut i: usize = 0;
    while i < d.len()
        invariant
            i <= d@.len(),
            forall|i: int| 0 <= i < d@.len() ==> (#[trigger] d@[i])@.len() == d@.len(),
            r == widest(d@, i as int),
        decreases d@.len() - i,
    {
        let row = &d[i];
        assert(d@[i as int]@.len() == d@.len());
        let mut w: u64 = 0;
        let mut j: usize = i + 1;
        while j < row.len()
            invariant
                i + 1 <= j <= row@.len(),
                w == widest_in_row(row@, i + 1, j as int),
            decreases row@.len() - j,
        {
            if row[j] > w {
                w = row[j];
            }
            j = j + 1;
        }
        if w > r {
            r = w;
        }
        i = i + 1;
    }
    r
}

/// The drawing of a city map and of its groups.
pub struct CityRun {
    pub session_id: String,
    /// The number of the map.
    pub n: u32,
    pub generated: Vec<String>,
    pub skipped: Vec<String>,
    /// How many maps of groups have been drawn.
    pub made: usize,
    /// The group to look at next.
    pub at: usize,
}

#[verifier::ext_equal]
pub struct CityRunModel {
    pub session_id: Seq<char>,
    pub n: u32,
    pub generated: Seq<Seq<char>>,
    pub skipped: Seq<Seq<char>>,
    pub made: usize,
    pub at: usize,
}

impl View for CityRun {
    type V = CityRunModel;

    open spec fn view(&self) -> CityRunModel {
        CityRunModel {
            session_id: self.session_id@,
            n: self.n,
            generated: text::views(self.generated@),
            skipped: text::views(self.skipped@),
            made: self.made,
            at: self.at,
        }
    }
}

/// The next group from a place on that gets a map of its own: it has sights enough, and not too
/// many maps have been drawn. Where all sights are one group, it gets none.
pub open spec fn next_group(sizes: Seq<int>, made: int, from: int) -> Option<int>
    decreases sizes.len() - from,
{
    if sizes.len() < 2 || made >= MAX_CLUSTER_MAPS || from < 0 || from >= sizes.len() {
        None
    } else if sizes[from] >= MIN_CLUSTER {
        Some(from)
    } else {
        next_group(sizes, made, from + 1)
    }
}

pub open spec fn sizes_of(clusters: Seq<Vec<usize>>) -> Seq<int> {
    clusters.map_values(|c: Vec<usize>| c@.len() as int)
}

impl CityRun {
    /// The drawing after the map itself has been drawn.
    pub fn new(session_id: &str, n: u32) -> (r: CityRun)
        ensures
            r@ == (CityRunModel {
                session_id: session_id@,
                n,
                generated: seq![overview::picture_path(session_id@, "city"@, n as nat, None)],
                skipped: Seq::empty(),
                made: 0,
                at: 0,
            }),
    {
        let mut generated: Vec<String> = Vec::new();
        generated.push(overview::map_path(session_id, "city", n, None));
        let r = CityRun {
            session_id: text::copy_text(session_id),
            n,
            generated,
            skipped: Vec::new(),
            made: 0,
            at: 0,
        };
        assert(text::views(r.generated@) =~= seq![
            overview::picture_path(session_id@, "city"@, n as nat, None),
        ]);
        assert(text::views(r.skipped@) =~= Seq::<Seq<char>>::empty());
        r
    }

    /// The next group that gets a map of its own.
    pub fn next(&mut self, clusters: &Vec<Vec<usize>>) -> (r: Option<usize>)
        ensures
            match next_group(sizes_of(clusters@), old(self).made as int, old(self).at as int) {
                Some(i) => {
                    &&& r is Some && r->0 == i
                    &&& i < clusters@.len()
                    &&& final(self)@ == (CityRunModel { at: (i + 1) as usize, ..old(self)@ })
                },
                None => r is None && final(self)@ == old(self)@,
            },
    {
        if clusters.len() < 2 || self.made >= MAX_CLUSTER_MAPS {
            return None;
        }
        let ghost sizes = sizes_of(clusters@);
        let mut i: usize = self.at;
        while i < clusters.len()
            invariant
                sizes == sizes_of(clusters@),
                sizes.len() >= 2,
                self.made < MAX_CLUSTER_MAPS,
                *self == *old(self),
                next_group(sizes, self.made as int, self.at as int) == next_group(
                    sizes,
                    self.made as int,
                    i as int,
                ),
            decreases clusters@.len() - i,
        {
            assert(sizes[i as int] == clusters@[i as int]@.len());
            if clusters[i].len() >= MIN_CLUSTER {
                self.at = i + 1;
                return Some(i);
            }
            i = i + 1;
        }
        None
    }

    /// The path of the next map of a group.
    pub fn next_path(&self) -> (r: String)
        requires
            self.made < MAX_CLUSTER_MAPS,
        ensures
            r@ == overview::picture_path(
                self.session_id@,
                "city"@,
                self.n as nat,
                Some((self.made + 1) as nat),
            ),
    {
        overview::map_path(self.session_id.as_str(), "city", self.n, Some(self.made as u64 + 1))
    }

    /// After the map of a group has been drawn; it is told where it has been saved too.
    pub fn drawn(&mut self, saved: bool)
        requires
            old(self).made < MAX_CLUSTER_MAPS,
        ensures
            final(self)@ == (CityRunModel {
                made: (old(self).made + 1) as usize,
                generated: if saved {
                    old(self)@.generated.push(
                        overview::picture_path(
                            old(self).session_id@,
                            "city"@,
                            old(self).n as nat,
                            Some((old(self).made + 1) as nat),
                        ),
                    )
                } else {
                    old(self)@.generated
                },
                ..old(self)@
            }),
    {
        if saved {
            let p = self.next_path();
            proof {
                text::lemma_views_push(self.generated@, p);
            }
            self.generated.push(p);
        }
        self.made = self.made + 1;
    }

    /// After the map of a group could not be drawn.
    pub fn failed(&mut self, size: usize, cause: &str)
        ensures
            final(self)@ == (CityRunModel {
                skipped: old(self)@.skipped.push(
                    "簇放大图（"@ + text::dec(size as nat) + " 个景点）未生成："@ + cause@,
                ),
                ..old(self)@
            }),
    {
        let mut s = text::copy_text("簇放大图（");
        s.append(text::number(size as u64).as_str());
        s.append(" 个景点）未生成：");
        s.append(cause);
        proof {
            text::lemma_views_push(self.skipped@, s);
        }
        self.skipped.push(s);
    }

    /// What is told at the end.
    pub fn report(&self, city: &str, pois: usize, routes: usize) -> (r: String)
        ensures
            r@ == city_report(
                "已生成城市详细图「"@ + city@ + "」："@ + text::joined(self@.generated, "、"@) + "（"@
                    + text::dec(pois as nat) + " 个景点、"@ + text::dec(routes as nat) + " 条路线）"@,
                self@.skipped,
            ),
    {
        let mut s = text::copy_text("已生成城市详细图「");
        s.append(city);
        s.append("」：");
        s.append(text::join(&self.generated, "、").as_str());
        s.append("（");
        s.append(text::number(pois as u64).as_str());
        s.append(" 个景点、");
        s.append(text::number(routes as u64).as_str());
        s.append(" 条路线）");
        let ghost head = s@;
        let ghost all = text::views(self.skipped@);
        let mut i: usize = 0;
        while i < self.skipped.len()
            invariant
                i <= self.skipped@.len(),
                all == text::views(self.skipped@),
                s@ == city_report(head, all.take(i as int)),
            decreases self.skipped@.len() - i,
        {
            proof {
                assert(all.take(i + 1).drop_last() =~= all.take(i as int));
                assert(all.take(i + 1).last() == self.skipped@[i as int]@);
            }
            s.append("\n");
            s.append(self.skipped[i].as_str());
            i = i + 1;
        }
        assert(all.take(all.len() as int) =~= all);
        s
    }
}

/// What is told of a map, with a line for each group that has none.
pub open spec fn city_report(head: Seq<char>, skipped: Seq<Seq<char>>) -> Seq<char>
    decreases skipped.len(),
{
    if skipped.len() == 0 {
        head
    } else {
        city_report(head, skipped.drop_last()) + "\n"@ + skipped.last()
    }
}

/// A group gets a map of its own only where it has sights enough, there are other groups, and fewer
/// than the most have been drawn.
pub proof fn law_group_maps_are_few(sizes: Seq<int>, made: int, from: int)
    requires
        0 <= from,
    ensures
        match next_group(sizes, made, from) {
            Some(i) => from <= i < sizes.len() && sizes.len() >= 2 && sizes[i] >= MIN_CLUSTER && made
                < MAX_CLUSTER_MAPS && forall|k: int| from <= k < i ==> (#[trigger] sizes[k])
                < MIN_CLUSTER,
            None => sizes.len() < 2 || made >= MAX_CLUSTER_MAPS || forall|k: int|
                from <= k < sizes.len() ==> (#[trigger] sizes[k]) < MIN_CLUSTER,
        },
    decreases sizes.len() - from,
{
    if sizes.len() >= 2 && made < MAX_CLUSTER_MAPS && from < sizes.len() && sizes[from]
        < MIN_CLUSTER {
        law_group_maps_are_few(sizes, made, from + 1);
    }
}

// ---- What maps show ----

/// A means of transport has the colour and the name of its kind: public transport, a car, or on foot
/// and by bicycle; any other has the colour for the rest and no name.
pub proof fn law_means_have_their_colours(mode: Option<Seq<char>>)
    ensures
        ({
            let public = mode == Some("公共交通"@) || mode == Some("地铁"@) || mode == Some("公交"@);
            let car = mode == Some("打车"@) || mode == Some("驾车"@);
            let slow = mode == Some("步行骑行"@) || mode == Some("步行"@) || mode == Some("骑行"@)
                || mode == Some("自行车"@);
            &&& public ==> color_of(mode) == "1D4ED8"@ && display_of(mode) == Some("公共交通"@)
            &&& car ==> color_of(mode) == "4C1D95"@ && display_of(mode) == Some("打车"@)
            &&& slow ==> color_of(mode) == "164E63"@ && display_of(mode) == Some("步行/骑行"@)
            &&& !public && !car && !slow ==> color_of(mode) == "0F172A"@ && display_of(mode) is None
        }),
{
    reveal_strlit("公共交通");
    reveal_strlit("地铁");
    reveal_strlit("公交");
    reveal_strlit("打车");
    reveal_strlit("驾车");
    reveal_strlit("步行骑行");
    reveal_strlit("步行");
    reveal_strlit("骑行");
    reveal_strlit("自行车");
    assert("公共交通"@.len() == 4 && "公共交通"@[0] == '公' && "公共交通"@[1] == '共');
    assert("地铁"@.len() == 2 && "地铁"@[0] == '地' && "地铁"@[1] == '铁');
    assert("公交"@.len() == 2 && "公交"@[0] == '公' && "公交"@[1] == '交');
    assert("打车"@.len() == 2 && "打车"@[0] == '打' && "打车"@[1] == '车');
    assert("驾车"@.len() == 2 && "驾车"@[0] == '驾' && "驾车"@[1] == '车');
    assert("步行骑行"@.len() == 4 && "步行骑行"@[0] == '步' && "步行骑行"@[1] == '行');
    assert("步行"@.len() == 2 && "步行"@[0] == '步' && "步行"@[1] == '行');
    assert("骑行"@.len() == 2 && "骑行"@[0] == '骑' && "骑行"@[1] == '行');
    assert("自行车"@.len() == 3 && "自行车"@[0] == '自' && "自行车"@[1] == '行');
}

proof fn lemma_paths_front(
    routes: Seq<RouteDataModel>,
    segs: Seq<Seq<char>>,
    more: Seq<RouteDataModel>,
    more_segs: Seq<Seq<char>>,
    n: int,
)
    requires
        n <= routes.len() == segs.len(),
        routes.len() <= more.len(),
        segs.len() <= more_segs.len(),
        forall|i: int| 0 <= i < routes.len() ==> more[i] == #[trigger] routes[i],
        forall|i: int| 0 <= i < segs.len() ==> more_segs[i] == #[trigger] segs[i],
    ensures
        paths_after(routes, segs, n) == paths_after(more, more_segs, n),
    decreases n,
{
    if n > 0 {
        lemma_paths_front(routes, segs, more, more_segs, n - 1);
        assert(more[n - 1] == routes[n - 1]);
        assert(more_segs[n - 1] == segs[n - 1]);
    }
}

proof fn lemma_line_begun(routes: Seq<RouteDataModel>, segs: Seq<Seq<char>>, n: int)
    requires
        0 < n <= routes.len() == segs.len(),
        forall|i: int| 0 <= i < segs.len() ==> (#[trigger] segs[i]).len() > 0,
    ensures
        ({
            let p = paths_after(routes, segs, n);
            p.line.len() > 0 && p.end == routes[n - 1].to && p.color == color_of(routes[n - 1].mode)
        }),
    decreases n,
{
    if n > 1 {
        lemma_line_begun(routes, segs, n - 1);
    }
    assert(segs[n - 1].len() > 0);
}

/// A further way goes on with the last line, behind a semicolon, where it begins at the end of the way
/// before and has its colour; otherwise it begins a line of its own with its colour. The lines before
/// stay as they are.
pub proof fn law_ways_make_lines(
    routes: Seq<RouteDataModel>,
    segs: Seq<Seq<char>>,
    r: RouteDataModel,
    seg: Seq<char>,
)
    requires
        routes.len() == segs.len(),
        forall|i: int| 0 <= i < segs.len() ==> (#[trigger] segs[i]).len() > 0,
        seg.len() > 0,
    ensures
        ({
            let before = paths_of(routes, segs);
            let after = paths_of(routes.push(r), segs.push(seg));
            let on = routes.len() > 0 && routes.last().to == r.from && color_of(
                routes.last().mode,
            ) == color_of(r.mode);
            &&& routes.len() == 0 ==> before.len() == 0
            &&& on ==> after.len() == before.len() && before.len() > 0 && after.drop_last()
                == before.drop_last() && after.last() == before.last() + ";"@ + seg
            &&& !on ==> after == before.push("8,0x"@ + color_of(r.mode) + ",0.9,,:"@ + seg)
        }),
{
    let n = routes.len() as int;
    let more = routes.push(r);
    let more_segs = segs.push(seg);
    lemma_paths_front(routes, segs, more, more_segs, n);
    assert(more[n] == r && more_segs[n] == seg);
    if n > 0 {
        lemma_line_begun(routes, segs, n);
    }
    let p = paths_after(routes, segs, n);
    let q = paths_after(more, more_segs, n + 1);
    assert(q == with_way(p, r, seg));
    let before = paths_of(routes, segs);
    let after = paths_of(more, more_segs);
    if n > 0 && routes.last().to == r.from && color_of(routes.last().mode) == color_of(r.mode) {
        assert(after.drop_last() =~= before.drop_last());
        assert(after.last() =~= before.last() + ";"@ + seg);
    } else {
        assert(after =~= before.push("8,0x"@ + color_of(r.mode) + ",0.9,,:"@ + seg));
    }
}

/// Five sights and more are marked by numbers, where there is a font for the legend that explains
/// them, and fewer by their names; each mark stands at the place of its sight, and the legend names it
/// by the same number.
pub proof fn law_sights_are_marked(pois: Seq<PoiModel>, routes: Seq<RouteDataModel>, font: Option<Seq<u8>>)
    ensures
        is_numbered(pois.len() as int, font) <==> pois.len() >= 5 && font is Some,
        markers_text(pois, true) == text::joined(
            Seq::new(
                pois.len(),
                |i: int|
                    "mid,0xDC2626,"@ + (if i < 9 {
                        text::dec((i + 1) as nat)
                    } else {
                        "0"@
                    }) + ":"@ + pois[i].place,
            ),
            "|"@,
        ),
        labels_text(pois, true).len() == 0,
        markers_text(pois, false) == "mid,0xDC2626,:"@ + text::joined(
            Seq::new(pois.len(), |i: int| pois[i].place),
            ";"@,
        ),
        labels_text(pois, false) == text::joined(
            Seq::new(
                pois.len(),
                |i: int| clean_name(pois[i].name) + ",0,1,14,0xFFFFFF,0xDC2626:"@ + pois[i].place,
            ),
            "|"@,
        ),
        ({
            let items = city_items(pois, true, routes);
            &&& items[0].text == "图例"@
            &&& items.len() == 1 + pois.len() + modes_shown(routes).len()
            &&& forall|i: int|
                0 <= i < pois.len() ==> (#[trigger] items[i + 1]).text == (if i < 9 {
                    text::dec((i + 1) as nat)
                } else {
                    "0"@
                }) + " "@ + pois[i].name
            &&& city_items(pois, false, routes).len() == 1 + modes_shown(routes).len()
            &&& city_items(pois, false, routes)[0].text == "图例"@
            &&& forall|k: int|
                0 <= k < modes_shown(routes).len() ==> {
                    &&& (#[trigger] city_items(pois, false, routes)[k + 1]).text == modes_shown(
                        routes,
                    )[k].0
                    &&& city_items(pois, false, routes)[k + 1].mark == Mark::Swatch(
                        paint_of(modes_shown(routes)[k].1) as u32,
                    )
                    &&& items[k + 1 + pois.len()] == city_items(pois, false, routes)[k + 1]
                }
        }),
{
    assert(numbered_marks(pois) =~= Seq::new(
        pois.len(),
        |i: int|
            "mid,0xDC2626,"@ + (if i < 9 {
                text::dec((i + 1) as nat)
            } else {
                "0"@
            }) + ":"@ + pois[i].place,
    ));
    assert(places(pois) =~= Seq::new(pois.len(), |i: int| pois[i].place));
    assert(name_labels(pois) =~= Seq::new(
        pois.len(),
        |i: int| clean_name(pois[i].name) + ",0,1,14,0xFFFFFF,0xDC2626:"@ + pois[i].place,
    ));
}

/// A name on the map is the sight's, except that the characters which part labels become blanks.
pub proof fn law_label_names_are_kept(s: Seq<char>, i: int)
    requires
        0 <= i < s.len(),
    ensures
        clean_name(s)[i] == (if s[i] == ',' || s[i] == ':' || s[i] == '|' || s[i] == ';' {
            ' '
        } else {
            s[i]
        }),
{
}

/// A map shows exactly the ways whose two ends are among its sights, in their order.
pub proof fn law_maps_show_their_ways(
    routes: Seq<RouteDataModel>,
    r: RouteDataModel,
    names: Seq<Seq<char>>,
)
    ensures
        routes_within(Seq::empty(), names).len() == 0,
        names.contains(r.from) && names.contains(r.to) ==> routes_within(routes.push(r), names)
            == routes_within(routes, names).push(r),
        !(names.contains(r.from) && names.contains(r.to)) ==> routes_within(routes.push(r), names)
            == routes_within(routes, names),
{
    assert(routes.push(r).drop_last() =~= routes);
}

/// The legend has each means of transport that the ways have a name for, once, with its colour.
pub proof fn law_legends_name_the_means(routes: Seq<RouteDataModel>)
    ensures
        forall|i: int|
            0 <= i < routes.len() && display_of((#[trigger] routes[i]).mode) is Some
                ==> modes_shown(routes).contains(
                (display_of(routes[i].mode)->Some_0, color_of(routes[i].mode)),
            ),
        forall|k: int|
            0 <= k < modes_shown(routes).len() ==> exists|i: int|
                0 <= i < routes.len() && display_of((#[trigger] routes[i]).mode) == Some(
                    (#[trigger] modes_shown(routes)[k]).0,
                ),
        forall|j: int, k: int|
            0 <= j < k < modes_shown(routes).len() ==> (#[trigger] modes_shown(routes)[j]).0 != (
            #[trigger] modes_shown(routes)[k]).0,
    decreases routes.len(),
{
    if routes.len() > 0 {
        let front = routes.drop_last();
        let r = routes.last();
        law_legends_name_the_means(front);
        let before = modes_shown(front);
        let now = modes_shown(routes);
        assert forall|i: int| 0 <= i < routes.len() && display_of(
            (#[trigger] routes[i]).mode,
        ) is Some implies now.contains((display_of(routes[i].mode)->Some_0, color_of(routes[i].mode))) by {
            let m = (display_of(routes[i].mode)->Some_0, color_of(routes[i].mode));
            if i < front.len() {
                assert(front[i] == routes[i]);
                assert(before.contains(m));
                let k = choose|k: int| 0 <= k < before.len() && before[k] == m;
                assert(now[k] == m);
            } else if names_mode(before, m.0) {
                let k = choose|k: int| 0 <= k < before.len() && (#[trigger] before[k]).0 == m.0;
                let j = choose|j: int|
                    0 <= j < front.len() && display_of((#[trigger] front[j]).mode) == Some(
                        before[k].0,
                    );
                law_names_go_with_colours(front[j].mode, r.mode);
                let f = (display_of(front[j].mode)->Some_0, color_of(front[j].mode));
                assert(before.contains(f));
                assert(f == m);
                let q = choose|q: int| 0 <= q < before.len() && before[q] == m;
                assert(now[q] == m);
            } else {
                assert(now[before.len() as int] == m);
            }
        }
        assert forall|k: int| 0 <= k < now.len() implies exists|i: int|
            0 <= i < routes.len() && display_of((#[trigger] routes[i]).mode) == Some(
                (#[trigger] now[k]).0,
            ) by {
            if k < before.len() {
                assert(before[k] == now[k]);
                let i = choose|i: int|
                    0 <= i < front.len() && display_of((#[trigger] front[i]).mode) == Some(
                        before[k].0,
                    );
                assert(display_of(routes[i].mode) == Some(now[k].0));
            } else {
                assert(display_of(routes[routes.len() - 1].mode) == Some(now[k].0));
            }
        }
        assert forall|j: int, k: int| 0 <= j < k < now.len() implies (#[trigger] now[j]).0 != (
        #[trigger] now[k]).0 by {
            if k < before.len() {
                assert(before[j].0 != before[k].0);
            } else {
                assert(before[j] == now[j]);
            }
        }
    }
}

/// A picture of eight hundred by six hundred is asked for at a place and a zoom level; lines, marks
/// and labels go along where there are any, each under its name.
pub proof fn law_pictures_are_asked_for(
    key: Seq<char>,
    location: Seq<char>,
    zoom: nat,
    paths: Seq<char>,
    markers: Seq<char>,
    labels: Seq<char>,
)
    ensures
        ({
            let p = picture_pairs(key, location, zoom, paths, markers, labels);
            &&& p.take(4) == seq![
                ("size"@, "800*600"@),
                ("location"@, location),
                ("zoom"@, text::dec(zoom)),
                ("key"@, key),
            ]
            &&& p.skip(4) == (if paths.len() > 0 {
                seq![("paths"@, paths)]
            } else {
                Seq::empty()
            }) + (if markers.len() > 0 {
                seq![("markers"@, markers)]
            } else {
                Seq::empty()
            }) + (if labels.len() > 0 {
                seq![("labels"@, labels)]
            } else {
                Seq::empty()
            })
        }),
{
    let p = picture_pairs(key, location, zoom, paths, markers, labels);
    assert(p.take(4) =~= seq![
        ("size"@, "800*600"@),
        ("location"@, location),
        ("zoom"@, text::dec(zoom)),
        ("key"@, key),
    ]);
    assert(p.skip(4) =~= given("paths"@, paths) + given("markers"@, markers) + given(
        "labels"@,
        labels,
    ));
}

proof fn lemma_lost_route(names: Seq<Seq<char>>, routes: Seq<overview::RouteModel>, n: int)
    requires
        0 <= n <= routes.len(),
    ensures
        match overview::lost_route(names, routes, n) {
            Some(f) => {
                &&& 0 <= f.0 < n
                &&& f.2 == (if f.1 {
                    routes[f.0].to
                } else {
                    routes[f.0].from
                })
                &&& !names.contains(f.2)
            },
            None => forall|i: int|
                0 <= i < n ==> names.contains((#[trigger] routes[i]).from) && names.contains(
                    routes[i].to,
                ),
        },
    decreases n,
{
    if n > 0 {
        lemma_lost_route(names, routes, n - 1);
    }
}

/// An order is drawn exactly where it has one to ten sights, every way begins and ends at one of them,
/// and the ways make at most four lines. Otherwise it is told what is wrong, the first of these first.
pub proof fn law_orders_are_checked(pois: Seq<PoiModel>, routes: Seq<overview::RouteModel>)
    ensures
        ({
            let names = Seq::new(pois.len(), |i: int| pois[i].name);
            let known = forall|i: int|
                0 <= i < routes.len() ==> names.contains((#[trigger] routes[i]).from)
                    && names.contains(routes[i].to);
            let lines = path_groups(routes, routes.len() as int);
            &&& city_fault(pois, routes) is None <==> 1 <= pois.len() <= 10 && known && lines <= 4
            &&& pois.len() == 0 ==> city_fault(pois, routes) == Some("城市图生成失败：pois 为空"@)
            &&& pois.len() > 10 ==> city_fault(pois, routes) == Some(
                "城市图生成失败：景点数 "@ + text::dec(pois.len())
                    + " 超过高德静态地图上限（10），请精简"@,
            )
            &&& 1 <= pois.len() <= 10 && known && lines > 4 ==> city_fault(pois, routes) == Some(
                "城市图生成失败：路线按交通方式合并后仍有 "@ + text::dec(lines)
                    + " 组，超过高德静态地图上限（4），请减少路线或让相邻路段使用同一交通方式"@,
            )
            &&& 1 <= pois.len() <= 10 && !known ==> exists|i: int|
                #![trigger routes[i]]
                0 <= i < routes.len() && (city_fault(pois, routes) == Some(
                    "城市图生成失败"@ + "：routes["@ + text::dec(i as nat) + "].from「"@
                        + routes[i].from + "」不在 pois 中"@,
                ) && !names.contains(routes[i].from) || city_fault(pois, routes) == Some(
                    "城市图生成失败"@ + "：routes["@ + text::dec(i as nat) + "].to「"@ + routes[i].to
                        + "」不在 pois 中"@,
                ) && !names.contains(routes[i].to))
        }),
{
    let names = Seq::new(pois.len(), |i: int| pois[i].name);
    assert(poi_names(pois) =~= names);
    lemma_lost_route(names, routes, routes.len() as int);
    match overview::lost_route(names, routes, routes.len() as int) {
        Some(f) => {
            assert(names.contains(routes[f.0].from) ==> f.1);
        },
        None => {},
    }
}

/// The number of lines is that of the ways that do not go on with the way before: that begin
/// elsewhere than it ends, or have another colour.
pub proof fn law_lines_are_counted(routes: Seq<overview::RouteModel>, n: int)
    requires
        0 < n <= routes.len(),
    ensures
        path_groups(routes, 0) == 0,
        path_groups(routes, 1) == 1,
        n > 1 ==> path_groups(routes, n) == path_groups(routes, n - 1) + (if routes[n - 2].to
            == routes[n - 1].from && color_of(routes[n - 2].transport) == color_of(
            routes[n - 1].transport,
        ) {
            0nat
        } else {
            1
        }),
{
    reveal_with_fuel(path_groups, 2);
}

/// The place of a name is that of a sight with the name; there is none where no sight has it.
pub proof fn law_places_are_those_of_sights(pois: Seq<PoiModel>, name: Seq<char>)
    ensures
        match place_named(pois, name) {
            Some(place) => exists|i: int|
                0 <= i < pois.len() && (#[trigger] pois[i]).name == name && pois[i].place == place,
            None => forall|i: int| 0 <= i < pois.len() ==> (#[trigger] pois[i]).name != name,
        },
    decreases pois.len(),
{
    if pois.len() > 0 {
        let front = pois.drop_last();
        law_places_are_those_of_sights(front, name);
        if pois.last().name == name {
            assert(pois[pois.len() - 1].name == name);
        } else {
            match place_named(front, name) {
                Some(place) => {
                    let i = choose|i: int|
                        0 <= i < front.len() && (#[trigger] front[i]).name == name && front[i].place
                            == place;
                    assert(pois[i].name == name && pois[i].place == place);
                },
                None => {
                    assert forall|i: int| 0 <= i < pois.len() implies (#[trigger] pois[i]).name
                        != name by {
                        if i < front.len() {
                            assert(front[i] == pois[i]);
                        }
                    }
                },
            }
        }
    }
}

/// A group gets a map of its own where it has four sights or more, there are other groups, and fewer
/// than three such maps have been drawn: the next such group, and none is passed over.
pub proof fn law_large_groups_get_maps(sizes: Seq<int>, made: int, from: int)
    requires
        0 <= from,
    ensures
        next_group(sizes, made, from) is Some <==> sizes.len() >= 2 && made < 3 && exists|k: int|
            from <= k < sizes.len() && #[trigger] sizes[k] >= 4,
        next_group(sizes, made, from) matches Some(i) ==> from <= i < sizes.len() && sizes[i] >= 4
            && forall|k: int| from <= k < i ==> (#[trigger] sizes[k]) < 4,
{
    law_group_maps_are_few(sizes, made, from);
}

/// Lines are used as they are where they take at most six thousand bytes; otherwise they are thinned
/// once more, up to eight times, and then given up.
pub proof fn law_long_lines_are_thinned(tries: u32, s: Seq<char>)
    ensures
        text::text_bytes(s) <= 6000 ==> paths_step(tries, Ok(s)) == PathsStepModel::Done(s),
        text::text_bytes(s) > 6000 && tries < 8 ==> paths_step(tries, Ok(s)) is Thin,
        text::text_bytes(s) > 6000 && tries >= 8 ==> paths_step(tries, Ok(s)) is Fail,
        paths_step(tries, Err(s)) == PathsStepModel::Fail(s),
{
}

proof fn lemma_widest_in_row(row: Seq<u64>, from: int, to: int)
    ensures
        forall|j: int| from <= j < to ==> #[trigger] row[j] <= widest_in_row(row, from, to),
        widest_in_row(row, from, to) == 0 || exists|j: int|
            from <= j < to && #[trigger] row[j] == widest_in_row(row, from, to),
    decreases to - from,
{
    if from < to {
        lemma_widest_in_row(row, from, to - 1);
        if widest_in_row(row, from, to) == row[to - 1] {
            assert(from <= to - 1 < to && row[to - 1] == widest_in_row(row, from, to));
        }
    }
}

/// The diameter of places is the largest distance between any two of them.
pub proof fn law_diameter_is_the_largest_distance(d: Seq<Vec<u64>>, n: int)
    requires
        0 <= n <= d.len(),
    ensures
        forall|i: int, j: int| 0 <= i < n && i < j < d.len() ==> #[trigger] d[i]@[j] <= widest(d, n),
        widest(d, n) == 0 || exists|i: int, j: int|
            0 <= i < n && i < j < d.len() && #[trigger] d[i]@[j] == widest(d, n),
    decreases n,
{
    if n > 0 {
        law_diameter_is_the_largest_distance(d, n - 1);
        let row = d[n - 1]@;
        lemma_widest_in_row(row, n, d.len() as int);
        let w = widest(d, n);
        assert forall|i: int, j: int| 0 <= i < n && i < j < d.len() implies #[trigger] d[i]@[j]
            <= w by {
            if i == n - 1 {
                assert(row[j] <= widest_in_row(row, n, d.len() as int));
            }
        }
        if w != 0 {
            if w == widest_in_row(row, n, d.len() as int) {
                let j = choose|j: int|
                    n <= j < d.len() && #[trigger] row[j] == widest_in_row(row, n, d.len() as int);
                assert(d[n - 1]@[j] == w);
            } else {
                let (i, j) = choose|i: int, j: int|
                    0 <= i < n - 1 && i < j < d.len() && #[trigger] d[i]@[j] == widest(d, n - 1);
                assert(d[i]@[j] == w);
            }
        }
    }
}

/// A picture begins with the four bytes that every PNG picture begins with.
pub proof fn law_pictures_begin_as_pictures_do(b: Seq<u8>)
    ensures
        is_png_data(seq![0x89u8, 0x50u8, 0x4Eu8, 0x47u8] + b),
        is_png_data(b) ==> b.take(4) == seq![0x89u8, 0x50u8, 0x4Eu8, 0x47u8],
        b.len() < 4 ==> !is_png_data(b),
{
    if is_png_data(b) {
        assert(b.take(4) =~= seq![0x89u8, 0x50u8, 0x4Eu8, 0x47u8]);
    }
}

/// Below a map of 800 pixels stands its legend, with 12 pixels to spare, where there is a font, and
/// nothing otherwise.
pub proof fn law_city_maps_have_room_for_their_legend(
    plan: CityPlan,
    pois: Seq<PoiModel>,
    routes: Seq<RouteDataModel>,
    font: Option<Seq<u8>>,
)
    requires
        is_city_plan(plan, pois, routes, font),
    ensures
        font is None ==> plan.band == 0,
        font matches Some(f) ==> plan.band == legend::box_height(
            f,
            legend::item_models(plan.items@),
            800,
        ) + 12,
        data_models(plan.routes@) == routes_within(routes, poi_names(pois)),
        plan.markers@ == markers_text(pois, is_numbered(pois.len() as int, font)),
        plan.labels@ == labels_text(pois, is_numbered(pois.len() as int, font)),
{
}

/// A report tells of each map that was left out, on a line of its own, behind its head.
pub proof fn law_left_out_maps_are_told(head: Seq<char>, skipped: Seq<Seq<char>>, s: Seq<char>)
    ensures
        city_report(head, Seq::empty()) == head,
        city_report(head, skipped.push(s)) == city_report(head, skipped) + "\n"@ + s,
{
    assert(skipped.push(s).drop_last() =~= skipped);
}

} // verus!
