//! The map service: places, weather and driving times.

use vstd::prelude::*;

use crate::json;
use crate::llm;
use crate::text;
use crate::text::CharClass;

verus! {

pub open spec fn param_views(p: Seq<(String, String)>) -> Seq<(Seq<char>, Seq<char>)> {
    p.map_values(|x: (String, String)| (x.0@, x.1@))
}

/// Adds a parameter.
pub fn add_param(params: &mut Vec<(String, String)>, key: &str, value: &str)
    ensures
        param_views(final(params)@) == param_views(old(params)@).push((key@, value@)),
{
    params.push((text::copy_text(key), text::copy_text(value)));
    assert(param_views(params@) =~= param_views(old(params)@).push((key@, value@)));
}

// ---- Places ----

/// A place that was found.
pub struct GeoPlace {
    /// Longitude and latitude with a comma between them.
    pub location: String,
    pub formatted_address: String,
}

/// The reply to a search for a place.
pub struct GeoReply {
    pub status: String,
    pub info: String,
    pub places: Vec<GeoPlace>,
}

/// A search for a place.
pub struct GeoQuery {
    pub address: String,
    pub city: Option<String>,
}

/// The search that a call asks for.
pub fn geocode_query(args: &serde_json::Value) -> (r: Result<GeoQuery, String>)
    ensures
        match r {
            Ok(q) => json::json_tree(*args).text_at("address"@) == Some(q.address@)
                && llm::opt_text(q.city) == json::json_tree(*args).text_at("city"@),
            Err(e) => json::json_tree(*args).text_at("address"@) is None && e@
                == "geocode 缺少 address 参数"@,
        },
{
    match json::text_at(args, "address") {
        Some(address) => Ok(GeoQuery { address, city: json::text_at(args, "city") }),
        None => Err(text::copy_text("geocode 缺少 address 参数")),
    }
}

pub open spec fn geocode_param_pairs(
    key: Seq<char>,
    address: Seq<char>,
    city: Option<Seq<char>>,
) -> Seq<(Seq<char>, Seq<char>)> {
    let base = seq![("key"@, key), ("address"@, address), ("output"@, "JSON"@)];
    match city {
        Some(c) => base.push(("city"@, c)),
        None => base,
    }
}

/// The parameters of a search for a place.
pub fn geocode_params(key: &str, query: &GeoQuery) -> (r: Vec<(String, String)>)
    ensures
        param_views(r@) == geocode_param_pairs(key@, query.address@, llm::opt_text(query.city)),
{
    let mut r: Vec<(String, String)> = Vec::new();
    add_param(&mut r, "key", key);
    add_param(&mut r, "address", query.address.as_str());
    add_param(&mut r, "output", "JSON");
    assert(param_views(r@) =~= seq![
        ("key"@, key@),
        ("address"@, query.address@),
        ("output"@, "JSON"@),
    ]);
    match &query.city {
        Some(c) => add_param(&mut r, "city", c.as_str()),
        None => {},
    }
    r
}

/// The longitude and the latitude of a place; what is missing counts as 0.
pub open spec fn coordinates(location: Seq<char>) -> (Seq<char>, Seq<char>) {
    let parts = text::split_at_char(location, ',');
    (
        parts[0],
        if parts.len() > 1 {
            parts[1]
        } else {
            "0"@
        },
    )
}

/// What a search for a place is answered.
pub open spec fn geocode_text(address: Seq<char>, reply: GeoReply) -> Seq<char> {
    if reply.status@ != "1"@ {
        "地理编码失败："@ + reply.info@
    } else if reply.places@.len() == 0 {
        "未找到「"@ + address + "」的坐标"@
    } else {
        let g = reply.places@[0];
        let (lon, lat) = coordinates(g.location@);
        "「"@ + address + "」→ 经度 "@ + lon + "，纬度 "@ + lat + "（"@ + g.formatted_address@ + "）"@
    }
}

pub fn geocode_answer(address: &str, reply: &GeoReply) -> (r: String)
    ensures
        r@ == geocode_text(address@, *reply),
{
    if !text::same(reply.status.as_str(), "1") {
        let mut s = text::copy_text("地理编码失败：");
        s.append(reply.info.as_str());
        return s;
    }
    if reply.places.len() == 0 {
        let mut s = text::copy_text("未找到「");
        s.append(address);
        s.append("」的坐标");
        return s;
    }
    let g = &reply.places[0];
    let parts = text::split(g.location.as_str(), ',');
    proof {
        assert(text::views(parts@).len() == parts@.len());
        assert(text::views(parts@)[0] == parts@[0]@);
    }
    let lat = if parts.len() > 1 {
        assert(text::views(parts@)[1] == parts@[1]@);
        text::copy_text(parts[1].as_str())
    } else {
        text::copy_text("0")
    };
    let mut s = text::copy_text("「");
    s.append(address);
    s.append("」→ 经度 ");
    s.append(parts[0].as_str());
    s.append("，纬度 ");
    s.append(lat.as_str());
    s.append("（");
    s.append(g.formatted_address.as_str());
    s.append("）");
    s
}

// ---- Weather ----

/// A city that was found.
pub struct GeoCity {
    pub adcode: String,
    pub province: String,
    pub city: String,
}

/// The name that a city is shown under.
pub open spec fn city_name(g: GeoCity, asked: Seq<char>) -> Seq<char> {
    if g.city@.len() > 0 {
        g.city@
    } else if g.province@.len() > 0 {
        g.province@
    } else {
        asked
    }
}

/// The code of a city and the name that it is shown under.
pub fn resolve_adcode(status: &str, info: &str, cities: &Vec<GeoCity>, city: &str) -> (r: Result<
    (String, String),
    String,
>)
    ensures
        match r {
            Ok(found) => {
                &&& status@ == "1"@
                &&& cities@.len() > 0
                &&& found.0@ == cities@[0].adcode@
                &&& found.1@ == city_name(cities@[0], city@)
            },
            Err(e) => if status@ != "1"@ {
                e@ == "高德地理编码返回错误: status="@ + status@ + " info="@ + info@
            } else {
                cities@.len() == 0 && e@ == "无法解析城市「"@ + city@ + "」的编码"@
            },
        },
{
    if !text::same(status, "1") {
        let mut e = text::copy_text("高德地理编码返回错误: status=");
        e.append(status);
        e.append(" info=");
        e.append(info);
        return Err(e);
    }
    if cities.len() == 0 {
        let mut e = text::copy_text("无法解析城市「");
        e.append(city);
        e.append("」的编码");
        return Err(e);
    }
    let g = &cities[0];
    let name = if text::char_count(g.city.as_str()) > 0 {
        text::copy_text(g.city.as_str())
    } else if text::char_count(g.province.as_str()) > 0 {
        text::copy_text(g.province.as_str())
    } else {
        text::copy_text(city)
    };
    Ok((text::copy_text(g.adcode.as_str()), name))
}

/// The weather now.
pub struct Live {
    pub weather: String,
    pub temperature: String,
    pub winddirection: String,
    pub windpower: String,
    pub humidity: String,
    pub reporttime: String,
}

/// The weather of a day to come.
pub struct Cast {
    pub date: String,
    pub week: String,
    pub dayweather: String,
    pub nightweather: String,
    pub daytemp: String,
    pub nighttemp: String,
    pub daywind: String,
    pub nightwind: String,
    pub daypower: String,
    pub nightpower: String,
}

pub struct Forecast {
    pub reporttime: String,
    pub casts: Vec<Cast>,
}

/// A reply about the weather.
pub struct WeatherReply {
    pub lives: Vec<Live>,
    pub forecasts: Vec<Forecast>,
}

/// Whether a reply about the weather is good.
pub fn check_weather_status(status: &str, info: &str) -> (r: Result<(), String>)
    ensures
        match r {
            Ok(_) => status@ == "1"@,
            Err(e) => status@ != "1"@ && e@ == "高德天气接口返回错误: status="@ + status@ + " info="@
                + info@,
        },
{
    if text::same(status, "1") {
        Ok(())
    } else {
        let mut e = text::copy_text("高德天气接口返回错误: status=");
        e.append(status);
        e.append(" info=");
        e.append(info);
        Err(e)
    }
}

/// The word for a day of the week, which is given as a number from 1 for Monday.
pub open spec fn weekday(s: Seq<char>) -> Seq<char> {
    if s == "1"@ {
        "一"@
    } else if s == "2"@ {
        "二"@
    } else if s == "3"@ {
        "三"@
    } else if s == "4"@ {
        "四"@
    } else if s == "5"@ {
        "五"@
    } else if s == "6"@ {
        "六"@
    } else if s == "7"@ {
        "日"@
    } else {
        "?"@
    }
}

pub fn week_cn(s: &str) -> (r: &'static str)
    ensures
        r@ == weekday(s@),
{
    if text::same(s, "1") {
        "一"
    } else if text::same(s, "2") {
        "二"
    } else if text::same(s, "3") {
        "三"
    } else if text::same(s, "4") {
        "四"
    } else if text::same(s, "5") {
        "五"
    } else if text::same(s, "6") {
        "六"
    } else if text::same(s, "7") {
        "日"
    } else {
        "?"
    }
}

pub open spec fn live_text(display: Seq<char>, l: Live) -> Seq<char> {
    display + " 实况天气（"@ + l.reporttime@ + "）：\n  天气："@ + l.weather@ + "  气温："@
        + l.temperature@ + "℃  湿度："@ + l.humidity@ + "%\n  风向："@ + l.winddirection@ + "  风力："@
        + l.windpower@ + "级\n\n"@
}

pub open spec fn cast_text(c: Cast) -> Seq<char> {
    "  "@ + c.date@ + " 周"@ + weekday(c.week@) + "：白天 "@ + c.dayweather@ + " "@ + c.daytemp@
        + "℃ / 夜间 "@ + c.nightweather@ + " "@ + c.nighttemp@ + "℃；风 "@ + c.daywind@ + " "@
        + c.daypower@ + "级 / "@ + c.nightwind@ + " "@ + c.nightpower@ + "级\n"@
}

pub open spec fn cast_texts(casts: Seq<Cast>) -> Seq<char>
    decreases casts.len(),
{
    if casts.len() == 0 {
        Seq::empty()
    } else {
        cast_texts(casts.drop_last()) + cast_text(casts.last())
    }
}

/// The weather now, where it is known.
pub open spec fn live_part(display: Seq<char>, base: Result<WeatherReply, String>) -> Seq<char> {
    match base {
        Ok(b) => if b.lives@.len() > 0 {
            live_text(display, b.lives@[0])
        } else {
            Seq::empty()
        },
        Err(_) => Seq::empty(),
    }
}

/// The weather to come, where it is known.
pub open spec fn forecast_part(all: Result<WeatherReply, String>) -> Seq<char> {
    match all {
        Ok(a) => if a.forecasts@.len() > 0 {
            "未来预报（发布于 "@ + a.forecasts@[0].reporttime@ + "）：\n"@ + cast_texts(
                a.forecasts@[0].casts@,
            )
        } else {
            Seq::empty()
        },
        Err(_) => Seq::empty(),
    }
}

/// What a question about the weather is answered, from the two replies.
pub open spec fn weather_text(
    location: Seq<char>,
    display: Seq<char>,
    base: Result<WeatherReply, String>,
    all: Result<WeatherReply, String>,
) -> Seq<char> {
    let out = live_part(display, base) + forecast_part(all);
    if out.len() > 0 {
        text::back_stripped(out, CharClass::White)
    } else {
        match base {
            Err(e) => "查询「"@ + location + "」天气失败："@ + e@,
            Ok(_) => match all {
                Err(e) => "查询「"@ + location + "」预报失败："@ + e@,
                Ok(_) => "未查到「"@ + location + "」的天气数据。"@,
            },
        }
    }
}

fn live_words(display: &str, l: &Live) -> (r: String)
    ensures
        r@ == live_text(display@, *l),
{
    let mut s = text::copy_text(display);
    s.append(" 实况天气（");
    s.append(l.reporttime.as_str());
    s.append("）：\n  天气：");
    s.append(l.weather.as_str());
    s.append("  气温：");
    s.append(l.temperature.as_str());
    s.append("℃  湿度：");
    s.append(l.humidity.as_str());
    s.append("%\n  风向：");
    s.append(l.winddirection.as_str());
    s.append("  风力：");
    s.append(l.windpower.as_str());
    s.append("级\n\n");
    s
}

fn cast_words(c: &Cast) -> (r: String)
    ensures
        r@ == cast_text(*c),
{
    let mut s = text::copy_text("  ");
    s.append(c.date.as_str());
    s.append(" 周");
    s.append(week_cn(c.week.as_str()));
    s.append("：白天 ");
    s.append(c.dayweather.as_str());
    s.append(" ");
    s.append(c.daytemp.as_str());
    s.append("℃ / 夜间 ");
    s.append(c.nightweather.as_str());
    s.append(" ");
    s.append(c.nighttemp.as_str());
    s.append("℃；风 ");
    s.append(c.daywind.as_str());
    s.append(" ");
    s.append(c.daypower.as_str());
    s.append("级 / ");
    s.append(c.nightwind.as_str());
    s.append(" ");
    s.append(c.nightpower.as_str());
    s.append("级\n");
    s
}

fn forecast_words(all: &Result<WeatherReply, String>) -> (r: String)
    ensures
        r@ == forecast_part(*all),
{
    let fc = match all {
        Ok(a) => if a.forecasts.len() > 0 {
            &a.forecasts[0]
        } else {
            return String::new();
        },
        Err(_) => return String::new(),
    };
    let mut casts = String::new();
    let mut i: usize = 0;
    assert(casts@ =~= cast_texts(fc.casts@.take(0)));
    while i < fc.casts.len()
        invariant
            i <= fc.casts@.len(),
            casts@ == cast_texts(fc.casts@.take(i as int)),
        decreases fc.casts@.len() - i,
    {
        casts.append(cast_words(&fc.casts[i]).as_str());
        proof {
            assert(fc.casts@.take(i + 1).drop_last() =~= fc.casts@.take(i as int));
            assert(fc.casts@.take(i + 1).last() == fc.casts@[i as int]);
        }
        i = i + 1;
    }
    assert(fc.casts@.take(fc.casts@.len() as int) =~= fc.casts@);
    let mut s = text::copy_text("未来预报（发布于 ");
    s.append(fc.reporttime.as_str());
    s.append("）：\n");
    s.append(casts.as_str());
    s
}

/// What a question about the weather is answered, from the two replies.
pub fn weather_answer(
    location: &str,
    display: &str,
    base: &Result<WeatherReply, String>,
    all: &Result<WeatherReply, String>,
) -> (r: String)
    ensures
        r@ == weather_text(location@, display@, *base, *all),
{
    let mut out = match base {
        Ok(b) => if b.lives.len() > 0 {
            live_words(display, &b.lives[0])
        } else {
            String::new()
        },
        Err(_) => String::new(),
    };
    assert(out@ =~= live_part(display@, *base));
    out.append(forecast_words(all).as_str());
    if text::char_count(out.as_str()) > 0 {
        return text::strip_back(out.as_str(), CharClass::White);
    }
    let mut s = String::new();
    match base {
        Err(e) => {
            s = text::copy_text("查询「");
            s.append(location);
            s.append("」天气失败：");
            s.append(e.as_str());
        },
        Ok(_) => match all {
            Err(e) => {
                s = text::copy_text("查询「");
                s.append(location);
                s.append("」预报失败：");
                s.append(e.as_str());
            },
            Ok(_) => {
                s = text::copy_text("未查到「");
                s.append(location);
                s.append("」的天气数据。");
            },
        },
    }
    s
}

/// What is told where the city could not be found.
pub fn weather_failed(location: &str, cause: &str) -> (r: String)
    ensures
        r@ == "查询「"@ + location@ + "」天气失败："@ + cause@,
{
    let mut s = text::copy_text("查询「");
    s.append(location);
    s.append("」天气失败：");
    s.append(cause);
    s
}

/// What the service is asked about the weather: of now (`base`) or of the days to come (`all`).
pub fn weather_params(key: &str, adcode: &str, extensions: &str) -> (r: Vec<(String, String)>)
    ensures
        param_views(r@) == seq![
            ("key"@, key@),
            ("city"@, adcode@),
            ("extensions"@, extensions@),
            ("output"@, "JSON"@),
        ],
{
    let mut r: Vec<(String, String)> = Vec::new();
    add_param(&mut r, "key", key);
    add_param(&mut r, "city", adcode);
    add_param(&mut r, "extensions", extensions);
    add_param(&mut r, "output", "JSON");
    assert(param_views(r@) =~= seq![
        ("key"@, key@),
        ("city"@, adcode@),
        ("extensions"@, extensions@),
        ("output"@, "JSON"@),
    ]);
    r
}

/// The place that a question about the weather asks about.
pub fn weather_location(args: &serde_json::Value) -> (r: Result<String, String>)
    ensures
        match r {
            Ok(s) => json::json_tree(*args).text_at("location"@) == Some(s@),
            Err(e) => json::json_tree(*args).text_at("location"@) is None && e@
                == "get_weather 缺少 location 参数"@,
        },
{
    match json::text_at(args, "location") {
        Some(s) => Ok(s),
        None => Err(text::copy_text("get_weather 缺少 location 参数")),
    }
}

// ---- Driving ----

/// A way that was found: its length in metres and its time in seconds, as the service writes them.
pub struct DrivePath {
    pub distance: String,
    pub duration: String,
}

/// A reply about a way.
pub struct DriveReply {
    pub status: String,
    pub info: String,
    pub paths: Vec<DrivePath>,
}

/// The name of an end of a way: the given one, or its place with four decimals.
pub open spec fn endpoint_label(name: Option<Seq<char>>, place: Seq<char>) -> Seq<char> {
    match name {
        Some(n) => if text::trimmed(n).len() > 0 {
            text::trimmed(n)
        } else {
            place
        },
        None => place,
    }
}

pub fn label(name: &Option<String>, place: &str) -> (r: String)
    ensures
        r@ == endpoint_label(llm::opt_text(*name), place@),
{
    match name {
        Some(n) => {
            let t = text::trim(n.as_str());
            if text::char_count(t.as_str()) > 0 {
                t
            } else {
                text::copy_text(place)
            }
        },
        None => text::copy_text(place),
    }
}

/// What follows a reply about a way.
pub enum DriveStep {
    /// The service is busy: the question is asked once more, after a pause.
    Again { wait_ms: u64 },
    /// The length and the time of the first way are to be read.
    Found { distance: String, duration: String },
    Reply(String),
    Fail(String),
}

pub enum DriveStepModel {
    Again { wait_ms: u64 },
    Found { distance: Seq<char>, duration: Seq<char> },
    Reply(Seq<char>),
    Fail(Seq<char>),
}

impl View for DriveStep {
    type V = DriveStepModel;

    open spec fn view(&self) -> DriveStepModel {
        match *self {
            DriveStep::Again { wait_ms } => DriveStepModel::Again { wait_ms },
            DriveStep::Found { distance, duration } => DriveStepModel::Found {
                distance: distance@,
                duration: duration@,
            },
            DriveStep::Reply(s) => DriveStepModel::Reply(s@),
            DriveStep::Fail(s) => DriveStepModel::Fail(s@),
        }
    }
}

/// What follows the reply to the first (0) or second (1) question.
pub open spec fn drive_step(attempt: u32, reply: DriveReply) -> DriveStepModel {
    if reply.status@ == "1"@ {
        if reply.paths@.len() == 0 {
            DriveStepModel::Fail("高德返回无可用驾车路径"@)
        } else {
            DriveStepModel::Found {
                distance: reply.paths@[0].distance@,
                duration: reply.paths@[0].duration@,
            }
        }
    } else if text::contains(reply.info@, "QPS"@) && attempt == 0 {
        DriveStepModel::Again { wait_ms: 1200 }
    } else {
        DriveStepModel::Reply("驾车路径查询失败："@ + reply.info@)
    }
}

pub fn after_drive_reply(attempt: u32, reply: &DriveReply) -> (r: DriveStep)
    ensures
        r@ == drive_step(attempt, *reply),
{
    if text::same(reply.status.as_str(), "1") {
        if reply.paths.len() == 0 {
            DriveStep::Fail(text::copy_text("高德返回无可用驾车路径"))
        } else {
            DriveStep::Found {
                distance: text::copy_text(reply.paths[0].distance.as_str()),
                duration: text::copy_text(reply.paths[0].duration.as_str()),
            }
        }
    } else if text::has_text(reply.info.as_str(), "QPS") && attempt == 0 {
        DriveStep::Again { wait_ms: 1200 }
    } else {
        let mut s = text::copy_text("驾车路径查询失败：");
        s.append(reply.info.as_str());
        DriveStep::Reply(s)
    }
}

/// The question is asked at most twice.
pub proof fn law_asked_at_most_twice(attempt: u32, reply: DriveReply)
    ensures
        drive_step(attempt, reply) is Again ==> attempt == 0,
{
}

/// What the service is asked about a way by car.
pub fn drive_params(key: &str, origin: &str, destination: &str) -> (r: Vec<(String, String)>)
    ensures
        param_views(r@) == seq![
            ("key"@, key@),
            ("origin"@, origin@),
            ("destination"@, destination@),
            ("extensions"@, "base"@),
            ("output"@, "JSON"@),
        ],
{
    let mut r: Vec<(String, String)> = Vec::new();
    add_param(&mut r, "key", key);
    add_param(&mut r, "origin", origin);
    add_param(&mut r, "destination", destination);
    add_param(&mut r, "extensions", "base");
    add_param(&mut r, "output", "JSON");
    assert(param_views(r@) =~= seq![
        ("key"@, key@),
        ("origin"@, origin@),
        ("destination"@, destination@),
        ("extensions"@, "base"@),
        ("output"@, "JSON"@),
    ]);
    r
}

/// What a question about a way is answered; `read` is its length in kilometres with one decimal and
/// its time in whole minutes, where the service's figures could be read.
pub fn drive_answer(
    origin: &str,
    destination: &str,
    distance: &str,
    duration: &str,
    read: &Option<(String, String)>,
) -> (r: String)
    ensures
        r@ == (match *read {
            Some(f) => origin@ + " → "@ + destination@ + "：驾车约 "@ + f.0@ + " km，约 "@ + f.1@
                + " 分钟（打车口径）"@,
            None => "驾车路径查询失败：响应数据异常（distance="@ + text::quoted(distance@) + ", duration="@
                + text::quoted(duration@) + "）"@,
        }),
{
    match read {
        Some(f) => {
            let mut s = text::copy_text(origin);
            s.append(" → ");
            s.append(destination);
            s.append("：驾车约 ");
            s.append(f.0.as_str());
            s.append(" km，约 ");
            s.append(f.1.as_str());
            s.append(" 分钟（打车口径）");
            s
        },
        None => {
            let mut s = text::copy_text("驾车路径查询失败：响应数据异常（distance=");
            s.append(text::quote(distance).as_str());
            s.append(", duration=");
            s.append(text::quote(duration).as_str());
            s.append("）");
            s
        },
    }
}

// ---- What is asked and told ----

/// A place is asked for by its address, and by the city where one is given.
pub proof fn law_places_are_asked_for(key: Seq<char>, address: Seq<char>, city: Seq<char>)
    ensures
        geocode_param_pairs(key, address, None) == seq![
            ("key"@, key),
            ("address"@, address),
            ("output"@, "JSON"@),
        ],
        geocode_param_pairs(key, address, Some(city)) == seq![
            ("key"@, key),
            ("address"@, address),
            ("output"@, "JSON"@),
            ("city"@, city),
        ],
{
}

/// Of a location the longitude stands before the comma and the latitude behind it, and they are told
/// as such, with the address that was found first.
pub proof fn law_places_are_told(
    address: Seq<char>,
    reply: GeoReply,
    lon: Seq<char>,
    lat: Seq<char>,
)
    requires
        forall|i: int| 0 <= i < lon.len() ==> #[trigger] lon[i] != ',',
        forall|i: int| 0 <= i < lat.len() ==> #[trigger] lat[i] != ',',
    ensures
        coordinates(lon + seq![','] + lat) == (lon, lat),
        reply.status@ != "1"@ ==> geocode_text(address, reply) == "地理编码失败："@ + reply.info@,
        reply.status@ == "1"@ && reply.places@.len() == 0 ==> geocode_text(address, reply)
            == "未找到「"@ + address + "」的坐标"@,
        reply.status@ == "1"@ && reply.places@.len() > 0 && reply.places@[0].location@ == lon + seq![
            ',',
        ] + lat ==> geocode_text(address, reply) == "「"@ + address + "」→ 经度 "@ + lon + "，纬度 "@
            + lat + "（"@ + reply.places@[0].formatted_address@ + "）"@,
{
    text::law_pieces_are_between_separators(lon, lat, ',');
    text::law_pieces_are_between_separators(lat, lon, ',');
    assert(lon + seq![','] + lat =~= lon.push(',') + lat);
    assert(text::split_at_char(lon + seq![','] + lat, ',') =~= seq![lon, lat]);
}

/// A city is shown by its name, by that of its province where it has none, and as it was asked for
/// where that has none either.
pub proof fn law_cities_are_shown(g: GeoCity, asked: Seq<char>)
    ensures
        g.city@.len() > 0 ==> city_name(g, asked) == g.city@,
        g.city@.len() == 0 && g.province@.len() > 0 ==> city_name(g, asked) == g.province@,
        g.city@.len() == 0 && g.province@.len() == 0 ==> city_name(g, asked) == asked,
{
}

/// The days of the week are counted from Monday.
pub proof fn law_weeks_begin_on_monday(s: Seq<char>)
    ensures
        weekday("1"@) == "一"@,
        weekday("2"@) == "二"@,
        weekday("3"@) == "三"@,
        weekday("4"@) == "四"@,
        weekday("5"@) == "五"@,
        weekday("6"@) == "六"@,
        weekday("7"@) == "日"@,
        s != "1"@ && s != "2"@ && s != "3"@ && s != "4"@ && s != "5"@ && s != "6"@ && s != "7"@ ==> weekday(s) == "?"@,
{
    reveal_strlit("1");
    reveal_strlit("2");
    reveal_strlit("3");
    reveal_strlit("4");
    reveal_strlit("5");
    reveal_strlit("6");
    reveal_strlit("7");
    assert("1"@[0] == '1');
    assert("2"@[0] == '2');
    assert("3"@[0] == '3');
    assert("4"@[0] == '4');
    assert("5"@[0] == '5');
    assert("6"@[0] == '6');
    assert("7"@[0] == '7');
}

/// The weather is told field by field: that of now under the city's name, and that of each day to come
/// with its day and night.
pub proof fn law_weather_is_told(display: Seq<char>, l: Live, casts: Seq<Cast>, c: Cast)
    ensures
        live_text(display, l) == display + " 实况天气（"@ + l.reporttime@ + "）：\n  天气："@
            + l.weather@ + "  气温："@ + l.temperature@ + "℃  湿度："@ + l.humidity@ + "%\n  风向："@
            + l.winddirection@ + "  风力："@ + l.windpower@ + "级\n\n"@,
        cast_texts(Seq::empty()).len() == 0,
        cast_texts(casts.push(c)) == cast_texts(casts) + ("  "@ + c.date@ + " 周"@ + weekday(c.week@)
            + "：白天 "@ + c.dayweather@ + " "@ + c.daytemp@ + "℃ / 夜间 "@ + c.nightweather@ + " "@
            + c.nighttemp@ + "℃；风 "@ + c.daywind@ + " "@ + c.daypower@ + "级 / "@ + c.nightwind@ + " "@
            + c.nightpower@ + "级\n"@),
{
    assert(casts.push(c).drop_last() =~= casts);
}

/// The weather of now comes before that of the days to come, as far as there is any; where there is
/// none it is told why, the failure about now before that about the days to come.
pub proof fn law_weather_comes_in_order(
    location: Seq<char>,
    display: Seq<char>,
    base: Result<WeatherReply, String>,
    all: Result<WeatherReply, String>,
)
    ensures
        ({
            let now = match base {
                Ok(b) => if b.lives@.len() > 0 {
                    live_text(display, b.lives@[0])
                } else {
                    Seq::empty()
                },
                Err(_) => Seq::empty(),
            };
            let later = match all {
                Ok(a) => if a.forecasts@.len() > 0 {
                    "未来预报（发布于 "@ + a.forecasts@[0].reporttime@ + "）：\n"@ + cast_texts(
                        a.forecasts@[0].casts@,
                    )
                } else {
                    Seq::empty()
                },
                Err(_) => Seq::empty(),
            };
            &&& (now + later).len() > 0 ==> weather_text(location, display, base, all)
                == text::back_stripped(now + later, CharClass::White)
            &&& (now + later).len() == 0 ==> weather_text(location, display, base, all) == (
            match (base, all) {
                (Err(e), _) => "查询「"@ + location + "」天气失败："@ + e@,
                (Ok(_), Err(e)) => "查询「"@ + location + "」预报失败："@ + e@,
                (Ok(_), Ok(_)) => "未查到「"@ + location + "」的天气数据。"@,
            })
        }),
{
}

/// An end of a way is called by its name, unless that is blank, and otherwise by its place. The first
/// way of a good reply counts; a service that is asked too often is asked once more, after twelve
/// hundred milliseconds.
pub proof fn law_ways_by_car_are_told(
    name: Seq<char>,
    place: Seq<char>,
    attempt: u32,
    reply: DriveReply,
)
    ensures
        text::trimmed(name).len() > 0 ==> endpoint_label(Some(name), place) == text::trimmed(name),
        text::trimmed(name).len() == 0 ==> endpoint_label(Some(name), place) == place,
        endpoint_label(None, place) == place,
        reply.status@ == "1"@ && reply.paths@.len() > 0 ==> drive_step(attempt, reply) == (
        DriveStepModel::Found {
            distance: reply.paths@[0].distance@,
            duration: reply.paths@[0].duration@,
        }),
        reply.status@ == "1"@ && reply.paths@.len() == 0 ==> drive_step(attempt, reply) is Fail,
        reply.status@ != "1"@ && attempt == 0 && text::contains(reply.info@, "QPS"@) ==> drive_step(
            attempt,
            reply,
        ) == (DriveStepModel::Again { wait_ms: 1200 }),
        reply.status@ != "1"@ && !(attempt == 0 && text::contains(reply.info@, "QPS"@))
            ==> drive_step(attempt, reply) == DriveStepModel::Reply(
            "驾车路径查询失败："@ + reply.info@,
        ),
{
}

} // verus!
