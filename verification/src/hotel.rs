//! Hotel reviews: which hotel is meant, how the crawler is called, and what its output comes to.

use vstd::prelude::*;

use crate::json;
use crate::json::JsonTree;
use crate::session;
use crate::text;

verus! {

// ---- Which hotel ----

/// The digits that a text starts with.
pub open spec fn leading_digits(s: Seq<char>) -> Seq<char>
    decreases s.len(),
{
    if s.len() > 0 && text::is_digit(s[0]) {
        seq![s[0]] + leading_digits(s.skip(1))
    } else {
        Seq::empty()
    }
}

/// The digits right after the first occurrence of a marker, if there are at least four.
pub open spec fn digits_after(s: Seq<char>, marker: Seq<char>) -> Option<Seq<char>> {
    match text::found_from(s, marker, 0) {
        Some(i) => {
            let d = leading_digits(s.skip(i + marker.len()));
            if d.len() >= 4 {
                Some(d)
            } else {
                None
            }
        },
        None => None,
    }
}

/// The hotel's number: in an address of the service after one of three markers, or the text itself
/// where it is a number of at least four digits.
pub open spec fn hotel_id(s: Seq<char>) -> Option<Seq<char>> {
    if text::contains(s, "ctrip.com"@) || text::contains(s, "trip.com"@) {
        match digits_after(s, "hotelId="@) {
            Some(d) => Some(d),
            None => match digits_after(s, "hotels/"@) {
                Some(d) => Some(d),
                None => digits_after(s, "hoteldetail/"@),
            },
        }
    } else {
        let t = text::trimmed(s);
        if t.len() >= 4 && text::all_digits(t) {
            Some(t)
        } else {
            None
        }
    }
}

fn take_digits(v: &Vec<char>, from: usize) -> (r: String)
    requires
        from <= v@.len(),
    ensures
        r@ == leading_digits(v@.skip(from as int)),
{
    let mut r = String::new();
    let mut i: usize = from;
    while i < v.len() && text::is_ascii_digit(v[i])
        invariant
            from <= i <= v@.len(),
            leading_digits(v@.skip(from as int)) == r@ + leading_digits(v@.skip(i as int)),
        decreases v@.len() - i,
    {
        proof {
            let rest = v@.skip(i as int);
            assert(rest[0] == v@[i as int]);
            assert(rest.skip(1) =~= v@.skip(i + 1));
            assert(r@ + (seq![rest[0]] + leading_digits(rest.skip(1))) =~= r@.push(v@[i as int])
                + leading_digits(v@.skip(i + 1)));
        }
        r.push(v[i]);
        i = i + 1;
    }
    assert(r@ + leading_digits(v@.skip(i as int)) =~= r@);
    r
}

fn find_digits_after(s: &str, marker: &str) -> (r: Option<String>)
    ensures
        match r {
            Some(d) => digits_after(s@, marker@) == Some(d@),
            None => digits_after(s@, marker@) is None,
        },
{
    match text::find_from(s, marker, 0) {
        Some(i) => {
            let v = text::chars_of(s);
            let n = text::char_count(marker);
            assert(i + n <= v.len());
            let d = take_digits(&v, i + n);
            if text::char_count(d.as_str()) >= 4 {
                Some(d)
            } else {
                None
            }
        },
        None => None,
    }
}

fn only_digits(v: &Vec<char>) -> (b: bool)
    ensures
        b == text::all_digits(v@),
{
    let mut i: usize = 0;
    while i < v.len()
        invariant
            i <= v@.len(),
            forall|j: int| 0 <= j < i ==> text::is_digit(#[trigger] v@[j]),
        decreases v@.len() - i,
    {
        if !text::is_ascii_digit(v[i]) {
            return false;
        }
        i = i + 1;
    }
    true
}

pub fn parse_hotel_id(s: &str) -> (r: Option<String>)
    ensures
        match r {
            Some(d) => hotel_id(s@) == Some(d@),
            None => hotel_id(s@) is None,
        },
{
    if text::has_text(s, "ctrip.com") || text::has_text(s, "trip.com") {
        match find_digits_after(s, "hotelId=") {
            Some(d) => return Some(d),
            None => {},
        }
        match find_digits_after(s, "hotels/") {
            Some(d) => return Some(d),
            None => {},
        }
        find_digits_after(s, "hoteldetail/")
    } else {
        let t = text::trim(s);
        let v = text::chars_of(t.as_str());
        if v.len() >= 4 && only_digits(&v) {
            Some(t)
        } else {
            None
        }
    }
}

proof fn lemma_leading_digits(s: Seq<char>)
    ensures
        text::all_digits(leading_digits(s)),
    decreases s.len(),
{
    if s.len() > 0 && text::is_digit(s[0]) {
        lemma_leading_digits(s.skip(1));
        let tail = leading_digits(s.skip(1));
        let all = seq![s[0]] + tail;
        assert forall|i: int| 0 <= i < all.len() implies text::is_digit(#[trigger] all[i]) by {
            if i > 0 {
                assert(all[i] == tail[i - 1]);
            }
        }
    }
}

/// A hotel's number is made of digits, at least four.
pub proof fn law_hotel_id_is_a_number(s: Seq<char>)
    ensures
        hotel_id(s) matches Some(d) ==> d.len() >= 4 && text::all_digits(d),
{
    let a = text::found_from(s, "hotelId="@, 0);
    if a is Some {
        lemma_leading_digits(s.skip(a->Some_0 + "hotelId="@.len()));
    }
    let b = text::found_from(s, "hotels/"@, 0);
    if b is Some {
        lemma_leading_digits(s.skip(b->Some_0 + "hotels/"@.len()));
    }
    let c = text::found_from(s, "hoteldetail/"@, 0);
    if c is Some {
        lemma_leading_digits(s.skip(c->Some_0 + "hoteldetail/"@.len()));
    }
}

// ---- Where its pictures go ----

/// The directory of a hotel: its number below the directory of the session's hotels.
pub open spec fn hotel_path(id: Seq<char>, number: nat) -> Seq<char> {
    session::hotels_path(id) + "/hotel_"@ + text::dec(number)
}

/// What is kept of the hotels of a session lies in the directory that is removed with it.
pub proof fn law_hotels_go_with_their_session(id: Seq<char>, number: nat)
    ensures
        (session::hotels_path(id) + "/"@).is_prefix_of(hotel_path(id, number)),
{
    reveal_strlit("/");
    reveal_strlit("/hotel_");
    let dir = session::hotels_path(id) + "/"@;
    assert(dir =~= hotel_path(id, number).take(dir.len() as int));
}

/// The number in a directory's name: what stands between the prefix and the next underscore.
pub open spec fn entry_number(name: Seq<char>, prefix: Seq<char>) -> Option<nat> {
    match text::after_prefix(name, prefix) {
        Some(rest) => text::parsed_unsigned(text::split_at_char(rest, '_')[0], u32::MAX as nat),
        None => None,
    }
}

/// The largest number among the names that carry one; 0 where none does.
pub open spec fn max_number(names: Seq<Seq<char>>, prefix: Seq<char>) -> nat
    decreases names.len(),
{
    if names.len() == 0 {
        0
    } else {
        let before = max_number(names.drop_last(), prefix);
        match entry_number(names.last(), prefix) {
            Some(n) => if n > before {
                n
            } else {
                before
            },
            None => before,
        }
    }
}

/// The largest number among names such as `hotel_3` or `hotel_3_old`.
pub fn scan_max_index(names: &Vec<String>, prefix: &str) -> (max: u32)
    ensures
        max == max_number(text::views(names@), prefix@),
{
    let ghost all = text::views(names@);
    let mut max: u32 = 0;
    let mut i: usize = 0;
    while i < names.len()
        invariant
            i <= names@.len(),
            all == text::views(names@),
            max == max_number(all.take(i as int), prefix@),
        decreases names@.len() - i,
    {
        proof {
            assert(all.take(i + 1).drop_last() == all.take(i as int));
            assert(all.take(i + 1).last() == names@[i as int]@);
        }
        match text::strip_prefix(names[i].as_str(), prefix) {
            Some(rest) => {
                let pieces = text::split(rest.as_str(), '_');
                assert(text::views(pieces@)[0] == pieces@[0]@);
                match text::parse_unsigned(pieces[0].as_str(), u32::MAX as u64) {
                    Some(n) => {
                        if n as u32 > max {
                            max = n as u32;
                        }
                    },
                    None => {},
                }
            },
            None => {},
        }
        i = i + 1;
    }
    assert(all.take(all.len() as int) == all);
    max
}

/// The number that the next directory gets is none that a directory already has.
pub proof fn law_next_number_is_new(names: Seq<Seq<char>>, prefix: Seq<char>, i: int)
    requires
        0 <= i < names.len(),
    ensures
        entry_number(names[i], prefix) matches Some(n) ==> n <= max_number(names, prefix),
    decreases names.len(),
{
    if i < names.len() - 1 {
        law_next_number_is_new(names.drop_last(), prefix, i);
        assert(names.drop_last()[i] == names[i]);
    }
}

/// The tool that crawls hotel reviews for one session.
pub struct HotelReviews {
    pub session_id: String,
    /// The number of the last directory.
    pub counter: u32,
}

impl HotelReviews {
    /// The tool for a session whose directory holds the given names.
    pub fn new(session_id: String, names: &Vec<String>) -> (h: HotelReviews)
        ensures
            h.session_id@ == session_id@,
            h.counter == max_number(text::views(names@), "hotel_"@),
    {
        let counter = scan_max_index(names, "hotel_");
        HotelReviews { session_id, counter }
    }

    /// Whether the crawler can run: its script, a saved login and its libraries must be there.
    pub fn env_ready(&self, script: bool, login: bool, libraries: bool) -> (r: Result<(), String>)
        ensures
            match r {
                Ok(_) => script && login && libraries,
                Err(e) => if !script {
                    e@ == "爬虫脚本缺失（scripts/hotel_crawl/crawl.mjs）"@
                } else if !login {
                    e@ == "携程登录态缺失（先运行 ./trip hotel login 扫码）"@
                } else {
                    !libraries && e@
                        == "playwright 未安装（先在 scripts/hotel_crawl 运行 npm i playwright && npx playwright install chromium）"@
                },
            },
    {
        if !script {
            return Err(text::copy_text("爬虫脚本缺失（scripts/hotel_crawl/crawl.mjs）"));
        }
        if !login {
            return Err(text::copy_text("携程登录态缺失（先运行 ./trip hotel login 扫码）"));
        }
        if !libraries {
            return Err(
                text::copy_text(
                    "playwright 未安装（先在 scripts/hotel_crawl 运行 npm i playwright && npx playwright install chromium）",
                ),
            );
        }
        Ok(())
    }

    /// The directory for the next hotel.
    pub fn next_dir(&mut self) -> (r: String)
        requires
            old(self).counter < u32::MAX,
        ensures
            final(self).counter == old(self).counter + 1,
            final(self).session_id@ == old(self).session_id@,
            r@ == hotel_path(old(self).session_id@, (old(self).counter + 1) as nat),
    {
        self.counter = self.counter + 1;
        let mut r = text::copy_text("hotels/");
        r.append(session::sanitize(self.session_id.as_str()).as_str());
        r.append("/hotel_");
        r.append(text::number(self.counter as u64).as_str());
        r
    }
}

// ---- The call ----

/// A crawl that is to be made.
pub struct Crawl {
    pub hotel_id: String,
    pub dislike: u64,
    pub good: u64,
    pub images: u64,
    pub checkin: Option<String>,
    pub checkout: Option<String>,
}

pub struct CrawlModel {
    pub hotel_id: Seq<char>,
    pub dislike: u64,
    pub good: u64,
    pub images: u64,
    pub checkin: Option<Seq<char>>,
    pub checkout: Option<Seq<char>>,
}

impl View for Crawl {
    type V = CrawlModel;

    open spec fn view(&self) -> CrawlModel {
        CrawlModel {
            hotel_id: self.hotel_id@,
            dislike: self.dislike,
            good: self.good,
            images: self.images,
            checkin: crate::llm::opt_text(self.checkin),
            checkout: crate::llm::opt_text(self.checkout),
        }
    }
}

/// What the arguments of a call come to.
pub enum CrawlPlan {
    Run(Crawl),
    Reply(String),
    Fail(String),
}

pub enum CrawlPlanModel {
    Run(CrawlModel),
    Reply(Seq<char>),
    Fail(Seq<char>),
}

impl View for CrawlPlan {
    type V = CrawlPlanModel;

    open spec fn view(&self) -> CrawlPlanModel {
        match *self {
            CrawlPlan::Run(c) => CrawlPlanModel::Run(c@),
            CrawlPlan::Reply(s) => CrawlPlanModel::Reply(s@),
            CrawlPlan::Fail(s) => CrawlPlanModel::Fail(s@),
        }
    }
}

pub open spec fn unsigned_or(args: JsonTree, key: Seq<char>, default: u64) -> u64 {
    match args.unsigned_at(key) {
        Some(n) => n,
        None => default,
    }
}

/// What the arguments of a call come to; `ready` is the answer of the environment's check.
pub open spec fn crawl_plan(args: JsonTree, ready: Result<(), Seq<char>>) -> CrawlPlanModel {
    match args.text_at("hotel_url_or_id"@) {
        None => CrawlPlanModel::Fail("缺少 hotel_url_or_id 参数"@),
        Some(raw) => match hotel_id(raw) {
            None => CrawlPlanModel::Reply(
                "酒店评论爬取失败：无法从「"@ + raw
                    + "」解析出携程酒店 id。请先用 search_web 搜「site:hotels.ctrip.com "@ + raw
                    + "」拿详情页 URL（形如 hotels.ctrip.com/hotels/1286148.html）再重试。"@,
            ),
            Some(id) => match ready {
                Err(e) => CrawlPlanModel::Reply(
                    "酒店评论爬取不可用："@ + e + "。本次改用 search_web 查该酒店的口碑信息即可。"@,
                ),
                Ok(_) => CrawlPlanModel::Run(
                    CrawlModel {
                        hotel_id: id,
                        dislike: unsigned_or(args, "dislike_limit"@, 15),
                        good: unsigned_or(args, "good_limit"@, 10),
                        images: if unsigned_or(args, "image_limit"@, 5) < 5 {
                            unsigned_or(args, "image_limit"@, 5)
                        } else {
                            5
                        },
                        checkin: args.text_at("checkin"@),
                        checkout: args.text_at("checkout"@),
                    },
                ),
            },
        },
    }
}

fn number_or(args: &serde_json::Value, key: &str, default: u64) -> (n: u64)
    ensures
        n == unsigned_or(json::json_tree(*args), key@, default),
{
    match json::unsigned_at(args, key) {
        Some(n) => n,
        None => default,
    }
}

/// A crawl is started only where everything is ready, for a number that was read out of the call, and
/// never loads more than five pictures.
pub proof fn law_crawls_are_small(args: JsonTree, ready: Result<(), Seq<char>>)
    ensures
        crawl_plan(args, ready) matches CrawlPlanModel::Run(c) ==> {
            &&& ready is Ok
            &&& args.text_at("hotel_url_or_id"@) matches Some(raw) && hotel_id(raw) == Some(c.hotel_id)
            &&& c.images <= 5
        },
{
}

/// What the arguments of a call come to. At most five pictures are asked for.
pub fn plan(args: &serde_json::Value, ready: Result<(), String>) -> (r: CrawlPlan)
    ensures
        r@ == crawl_plan(json::json_tree(*args), crate::mode::result_text(ready)),
{
    let raw = match json::text_at(args, "hotel_url_or_id") {
        Some(s) => s,
        None => return CrawlPlan::Fail(text::copy_text("缺少 hotel_url_or_id 参数")),
    };
    let id = match parse_hotel_id(raw.as_str()) {
        Some(id) => id,
        None => {
            let mut s = text::copy_text("酒店评论爬取失败：无法从「");
            s.append(raw.as_str());
            s.append("」解析出携程酒店 id。请先用 search_web 搜「site:hotels.ctrip.com ");
            s.append(raw.as_str());
            s.append("」拿详情页 URL（形如 hotels.ctrip.com/hotels/1286148.html）再重试。");
            return CrawlPlan::Reply(s);
        },
    };
    match ready {
        Err(e) => {
            let mut s = text::copy_text("酒店评论爬取不可用：");
            s.append(e.as_str());
            s.append("。本次改用 search_web 查该酒店的口碑信息即可。");
            CrawlPlan::Reply(s)
        },
        Ok(_) => {
            let images = number_or(args, "image_limit", 5);
            CrawlPlan::Run(
                Crawl {
                    hotel_id: id,
                    dislike: number_or(args, "dislike_limit", 15),
                    good: number_or(args, "good_limit", 10),
                    images: if images < 5 {
                        images
                    } else {
                        5
                    },
                    checkin: json::text_at(args, "checkin"),
                    checkout: json::text_at(args, "checkout"),
                },
            )
        },
    }
}

/// An optional argument with its flag before it.
pub open spec fn flagged(flag: Seq<char>, value: Option<Seq<char>>) -> Seq<Seq<char>> {
    match value {
        Some(v) => seq![flag, v],
        None => seq![],
    }
}

/// The arguments of the crawler.
pub open spec fn crawler_args(c: CrawlModel, out_dir: Seq<char>) -> Seq<Seq<char>> {
    seq![
        "crawl.mjs"@,
        c.hotel_id,
        "--out"@,
        out_dir,
        "--dislike"@,
        text::dec(c.dislike as nat),
        "--good"@,
        text::dec(c.good as nat),
        "--images"@,
        text::dec(c.images as nat),
    ] + flagged("--checkin"@, c.checkin) + flagged("--checkout"@, c.checkout)
}

fn push_text(out: &mut Vec<String>, s: &str)
    ensures
        text::views(final(out)@) == text::views(old(out)@).push(s@),
{
    let t = text::copy_text(s);
    proof {
        text::lemma_views_push(out@, t);
    }
    out.push(t);
}

/// The arguments of the crawler.
pub fn command_args(c: &Crawl, out_dir: &str) -> (r: Vec<String>)
    ensures
        text::views(r@) == crawler_args(c@, out_dir@),
{
    let mut r: Vec<String> = Vec::new();
    push_text(&mut r, "crawl.mjs");
    push_text(&mut r, c.hotel_id.as_str());
    push_text(&mut r, "--out");
    push_text(&mut r, out_dir);
    push_text(&mut r, "--dislike");
    push_text(&mut r, text::number(c.dislike).as_str());
    push_text(&mut r, "--good");
    push_text(&mut r, text::number(c.good).as_str());
    push_text(&mut r, "--images");
    push_text(&mut r, text::number(c.images).as_str());
    let ghost head = text::views(r@);
    assert(head =~= seq![
        "crawl.mjs"@,
        c.hotel_id@,
        "--out"@,
        out_dir@,
        "--dislike"@,
        text::dec(c.dislike as nat),
        "--good"@,
        text::dec(c.good as nat),
        "--images"@,
        text::dec(c.images as nat),
    ]);
    match &c.checkin {
        Some(d) => {
            push_text(&mut r, "--checkin");
            push_text(&mut r, d.as_str());
        },
        None => {},
    }
    assert(text::views(r@) =~= head + flagged("--checkin"@, c@.checkin));
    match &c.checkout {
        Some(d) => {
            push_text(&mut r, "--checkout");
            push_text(&mut r, d.as_str());
        },
        None => {},
    }
    assert(text::views(r@) =~= crawler_args(c@, out_dir@));
    r
}

// ---- The summary ----

/// The text of a field, or that it is not known.
pub open spec fn known(v: JsonTree, key: Seq<char>) -> Seq<char> {
    v.text_or(key, "未知"@)
}

/// A field that may be a number or a text, or that it is not known.
pub open spec fn known_number(v: JsonTree, key: Seq<char>) -> Seq<char> {
    match v.entry(key) {
        Some(JsonTree::Number { printed, .. }) => printed,
        Some(JsonTree::Text(s)) => s,
        _ => "未知"@,
    }
}

/// A field as JSON, or a question mark.
pub open spec fn printed_or_mark(v: JsonTree, key: Seq<char>) -> Seq<char> {
    match v.entry(key) {
        Some(x) => json::json_printed(x),
        None => "?"@,
    }
}

pub open spec fn room_lines(rooms: Seq<JsonTree>) -> Seq<char>
    decreases rooms.len(),
{
    if rooms.len() == 0 {
        Seq::empty()
    } else {
        room_lines(rooms.drop_last()) + "  "@ + rooms.last().text_or("name"@, "?"@) + " — ¥"@
            + printed_or_mark(rooms.last(), "price"@) + "\n"@
    }
}

pub open spec fn rooms_part(v: JsonTree) -> Seq<char> {
    match v.list_at("rooms"@) {
        Some(rooms) => if rooms.len() == 0 {
            Seq::empty()
        } else {
            "房型实时价（起价/晚）：\n"@ + room_lines(rooms)
        },
        None => Seq::empty(),
    }
}

/// A partial rating: its name and its value.
pub open spec fn rating_text(e: (Seq<char>, JsonTree)) -> Seq<char> {
    e.0 + " "@ + (match e.1 {
        JsonTree::Number { float_printed, .. } => float_printed,
        _ => "0"@,
    })
}

pub open spec fn ratings_part(v: JsonTree) -> Seq<char> {
    match v.entry("subRatings"@) {
        Some(JsonTree::Object(entries)) => "子评分："@ + text::joined(
            entries.map_values(|e: (Seq<char>, JsonTree)| rating_text(e)),
            " "@,
        ) + " | "@,
        _ => Seq::empty(),
    }
}

pub open spec fn dislikes_part(v: JsonTree) -> Seq<char> {
    match v.unsigned_at("dislikeCount"@) {
        Some(n) => "差评 "@ + text::dec(n as nat) + " 条\n"@,
        None => Seq::empty(),
    }
}

/// A keyword with how often it was used, where both are there.
pub open spec fn tag_text(t: JsonTree) -> Option<Seq<char>> {
    match (t.entry("word"@), t.entry("count"@)) {
        (Some(w), Some(c)) => Some(
            (match w.text() {
                Some(s) => s,
                None => Seq::empty(),
            }) + "("@ + text::dec(
                match c.unsigned() {
                    Some(n) => n as nat,
                    None => 0,
                },
            ) + ")"@,
        ),
        _ => None,
    }
}

pub open spec fn tag_texts(tags: Seq<JsonTree>) -> Seq<Seq<char>>
    decreases tags.len(),
{
    if tags.len() == 0 {
        Seq::empty()
    } else {
        let before = tag_texts(tags.drop_last());
        match tag_text(tags.last()) {
            Some(s) => before.push(s),
            None => before,
        }
    }
}

pub open spec fn tags_part(v: JsonTree) -> Seq<char> {
    let tags = match v.list_at("keywordTags"@) {
        Some(items) => text::joined(tag_texts(items), " "@),
        None => Seq::empty(),
    };
    if tags.len() == 0 {
        Seq::empty()
    } else {
        "好评关键词："@ + tags + "\n"@
    }
}

/// How many pictures a comment has.
pub open spec fn picture_count(c: JsonTree) -> nat {
    match c.list_at("images"@) {
        Some(items) => items.len(),
        None => 0,
    }
}

/// One comment, with its number in the list.
pub open spec fn comment_line(n: nat, c: JsonTree) -> Seq<char> {
    text::dec(n) + ". ["@ + printed_or_mark(c, "score"@) + "分 "@ + c.text_or(
        "date"@,
        Seq::empty(),
    ) + " "@ + c.text_or("province"@, Seq::empty()) + "] "@ + text::shortened(
        c.text_or("text"@, "（未取到原文）"@),
        220,
    ) + (if picture_count(c) > 0 {
        "（含图"@ + text::dec(picture_count(c)) + "）"@
    } else {
        Seq::empty()
    }) + (match c.text_at("hotelReply"@) {
        Some(r) => "〔酒店回复："@ + text::shortened(r, 80) + "〕"@,
        None => Seq::empty(),
    }) + "\n"@
}

pub open spec fn comment_lines(list: Seq<JsonTree>) -> Seq<char>
    decreases list.len(),
{
    if list.len() == 0 {
        Seq::empty()
    } else {
        comment_lines(list.drop_last()) + comment_line(list.len(), list.last())
    }
}

pub open spec fn comments_part(v: JsonTree, key: Seq<char>, title: Seq<char>) -> Seq<char> {
    match v.list_at(key) {
        Some(list) => "\n"@ + title + "（"@ + text::dec(list.len()) + " 条采样）：\n"@
            + comment_lines(list),
        None => Seq::empty(),
    }
}

pub open spec fn head_part(v: JsonTree) -> Seq<char> {
    "已爬取酒店评论："@ + known(v, "name"@) + "（评分 "@ + known_number(v, "rating"@) + "，评论 "@
        + known_number(v, "reviewCount"@) + " 条，"@ + known(v, "opened"@) + "）\n"@
}

pub open spec fn pictures_part(v: JsonTree, image_dir: Seq<char>) -> Seq<char> {
    "\n住客实拍图 "@ + text::dec(picture_count(v)) + " 张已存 "@ + image_dir
        + "/images/（Web 端可内联展示）。\n使用提示：差评与酒店回复是避坑金矿，总结时提炼共性问题；评分仅作参考，以差评为准排查硬伤。"@
}

/// The crawler's output in words.
pub open spec fn summary(v: JsonTree, image_dir: Seq<char>) -> Seq<char> {
    head_part(v) + rooms_part(v) + ratings_part(v) + dislikes_part(v) + tags_part(v)
        + comments_part(v, "dislikes"@, "差评采样（带图/长文优先，避坑重点）"@) + comments_part(
        v,
        "good"@,
        "好评采样（长文优先）"@,
    ) + pictures_part(v, image_dir)
}

/// Whether a line tells a comment: its number in the list, its rating, its month and where it comes
/// from, and then its words, shortened; behind these how many pictures it has, where it has any, and
/// what the hotel replied, where it did.
pub open spec fn tells_comment(line: Seq<char>, number: nat, c: JsonTree) -> bool {
    let score = match c.entry("score"@) {
        Some(x) => json::json_printed(x),
        None => "?"@,
    };
    let words = match c.text_at("text"@) {
        Some(s) => s,
        None => "（未取到原文）"@,
    };
    let date = match c.text_at("date"@) {
        Some(s) => s,
        None => Seq::empty(),
    };
    let province = match c.text_at("province"@) {
        Some(s) => s,
        None => Seq::empty(),
    };
    let start = text::dec(number) + ". ["@ + score + "分 "@ + date + " "@ + province + "] "@;
    let said = if words.len() <= 220 {
        words
    } else {
        words.take(220)
    };
    let pictures = match c.list_at("images"@) {
        Some(items) => if items.len() > 0 {
            "（含图"@ + text::dec(items.len()) + "）"@
        } else {
            Seq::empty()
        },
        None => Seq::empty(),
    };
    let reply = match c.text_at("hotelReply"@) {
        Some(s) => "〔酒店回复："@ + (if s.len() <= 80 {
            s
        } else {
            s.take(80)
        }) + "〕"@,
        None => Seq::empty(),
    };
    line == start + said + pictures + reply + "\n"@
}

/// Whether a section shows a list of comments under a heading with how many there are: line by line,
/// each comment in its turn. Without a list there is no section.
pub open spec fn shows_comments(
    section: Seq<char>,
    heading: Seq<char>,
    list: Option<Seq<JsonTree>>,
    lines: Seq<Seq<char>>,
) -> bool {
    match list {
        None => section.len() == 0,
        Some(items) => {
            &&& section == "\n"@ + heading + "（"@ + text::dec(items.len()) + " 条采样）：\n"@
                + text::run_together(lines)
            &&& lines.len() == items.len()
            &&& forall|i: int|
                0 <= i < items.len() ==> tells_comment(#[trigger] lines[i], (i + 1) as nat, items[i])
        },
    }
}

proof fn lemma_comment_lines(list: Seq<JsonTree>) -> (lines: Seq<Seq<char>>)
    ensures
        lines.len() == list.len(),
        comment_lines(list) == text::run_together(lines),
        forall|i: int|
            0 <= i < list.len() ==> tells_comment(#[trigger] lines[i], (i + 1) as nat, list[i]),
    decreases list.len(),
{
    if list.len() == 0 {
        Seq::empty()
    } else {
        let before = lemma_comment_lines(list.drop_last());
        let line = comment_line(list.len(), list.last());
        let lines = before.push(line);
        assert(lines.drop_last() =~= before);
        assert(tells_comment(line, list.len(), list.last()));
        assert forall|i: int| 0 <= i < list.len() implies tells_comment(
            #[trigger] lines[i],
            (i + 1) as nat,
            list[i],
        ) by {
            if i < before.len() {
                assert(lines[i] == before[i]);
            }
        }
        lines
    }
}

proof fn lemma_comments_part(v: JsonTree, key: Seq<char>, title: Seq<char>) -> (lines: Seq<Seq<char>>)
    ensures
        shows_comments(comments_part(v, key, title), title, v.list_at(key), lines),
{
    match v.list_at(key) {
        Some(list) => lemma_comment_lines(list),
        None => Seq::empty(),
    }
}

/// In the summary the comments of the list of dislikes stand under the heading for bad reviews, those
/// of the good list under the heading for good ones, which comes after; each heading tells the length
/// of its own list, and between the headings and behind them there is no other comment.
pub proof fn law_comments_stand_under_their_heading(v: JsonTree, image_dir: Seq<char>) -> (r: (
    Seq<char>,
    (Seq<char>, Seq<Seq<char>>),
    (Seq<char>, Seq<Seq<char>>),
))
    ensures
        summary(v, image_dir) == r.0 + r.1.0 + r.2.0 + "\n住客实拍图 "@ + text::dec(
            match v.list_at("images"@) {
                Some(items) => items.len(),
                None => 0,
            },
        ) + " 张已存 "@ + image_dir
            + "/images/（Web 端可内联展示）。\n使用提示：差评与酒店回复是避坑金矿，总结时提炼共性问题；评分仅作参考，以差评为准排查硬伤。"@,
        shows_comments(
            r.1.0,
            "差评采样（带图/长文优先，避坑重点）"@,
            v.list_at("dislikes"@),
            r.1.1,
        ),
        shows_comments(r.2.0, "好评采样（长文优先）"@, v.list_at("good"@), r.2.1),
        r.0 == head_part(v) + rooms_part(v) + ratings_part(v) + dislikes_part(v) + tags_part(v),
{
    let front = head_part(v) + rooms_part(v) + ratings_part(v) + dislikes_part(v) + tags_part(v);
    let bad_title = "差评采样（带图/长文优先，避坑重点）"@;
    let good_title = "好评采样（长文优先）"@;
    let bad = lemma_comments_part(v, "dislikes"@, bad_title);
    let good = lemma_comments_part(v, "good"@, good_title);
    let bad_section = comments_part(v, "dislikes"@, bad_title);
    let good_section = comments_part(v, "good"@, good_title);
    assert(summary(v, image_dir) =~= front + bad_section + good_section + "\n住客实拍图 "@
        + text::dec(picture_count(v)) + " 张已存 "@ + image_dir
        + "/images/（Web 端可内联展示）。\n使用提示：差评与酒店回复是避坑金矿，总结时提炼共性问题；评分仅作参考，以差评为准排查硬伤。"@);
    (front, (bad_section, bad), (good_section, good))
}

/// A field in words: a number as it is printed, a text as it is, and otherwise that it is not known.
pub open spec fn in_words(field: Option<JsonTree>) -> Seq<char> {
    match field {
        Some(x) => match x {
            JsonTree::Number { printed, .. } => printed,
            JsonTree::Text(s) => s,
            _ => "未知"@,
        },
        None => "未知"@,
    }
}

proof fn lemma_room_lines(rooms: Seq<JsonTree>) -> (lines: Seq<Seq<char>>)
    ensures
        room_lines(rooms) == text::run_together(lines),
        lines.len() == rooms.len(),
        forall|i: int|
            0 <= i < rooms.len() ==> #[trigger] lines[i] == "  "@ + (match rooms[i].text_at(
                "name"@,
            ) {
                Some(s) => s,
                None => "?"@,
            }) + " — ¥"@ + (match rooms[i].entry("price"@) {
                Some(p) => json::json_printed(p),
                None => "?"@,
            }) + "\n"@,
    decreases rooms.len(),
{
    if rooms.len() == 0 {
        Seq::empty()
    } else {
        let before = lemma_room_lines(rooms.drop_last());
        let line = "  "@ + rooms.last().text_or("name"@, "?"@) + " — ¥"@ + printed_or_mark(
            rooms.last(),
            "price"@,
        ) + "\n"@;
        let lines = before.push(line);
        assert(lines.drop_last() =~= before);
        assert(room_lines(rooms) =~= room_lines(rooms.drop_last()) + line);
        assert forall|i: int| 0 <= i < rooms.len() implies #[trigger] lines[i] == "  "@ + (
        match rooms[i].text_at("name"@) {
            Some(s) => s,
            None => "?"@,
        }) + " — ¥"@ + (match rooms[i].entry("price"@) {
            Some(p) => json::json_printed(p),
            None => "?"@,
        }) + "\n"@ by {
            if i < before.len() {
                assert(lines[i] == before[i]);
            }
        }
        lines
    }
}

/// Before the comments the summary tells the hotel's name, its rating, how many reviews it has and
/// when it opened; each room with its price, where there are any; the partial ratings; how many bad
/// reviews there are, where that is known; and the keywords. Each comes from the field of that name.
pub proof fn law_summary_tells_the_hotel(v: JsonTree) -> (rooms: Seq<Seq<char>>)
    ensures
        head_part(v) == "已爬取酒店评论："@ + (match v.text_at("name"@) {
            Some(s) => s,
            None => "未知"@,
        }) + "（评分 "@ + in_words(v.entry("rating"@)) + "，评论 "@ + in_words(
            v.entry("reviewCount"@),
        ) + " 条，"@ + (match v.text_at("opened"@) {
            Some(s) => s,
            None => "未知"@,
        }) + "）\n"@,
        match v.list_at("rooms"@) {
            Some(items) => {
                &&& rooms.len() == items.len()
                &&& rooms_part(v) == (if items.len() == 0 {
                    Seq::empty()
                } else {
                    "房型实时价（起价/晚）：\n"@ + text::run_together(rooms)
                })
                &&& forall|i: int|
                    0 <= i < items.len() ==> #[trigger] rooms[i] == "  "@ + (match items[i].text_at(
                        "name"@,
                    ) {
                        Some(s) => s,
                        None => "?"@,
                    }) + " — ¥"@ + (match items[i].entry("price"@) {
                        Some(p) => json::json_printed(p),
                        None => "?"@,
                    }) + "\n"@
            },
            None => rooms_part(v).len() == 0,
        },
        dislikes_part(v) == (match v.unsigned_at("dislikeCount"@) {
            Some(n) => "差评 "@ + text::dec(n as nat) + " 条\n"@,
            None => Seq::empty(),
        }),
        match v.entry("subRatings"@) {
            Some(JsonTree::Object(entries)) => ratings_part(v) == "子评分："@ + text::joined(
                Seq::new(
                    entries.len(),
                    |i: int|
                        entries[i].0 + " "@ + (match entries[i].1 {
                            JsonTree::Number { float_printed, .. } => float_printed,
                            _ => "0"@,
                        }),
                ),
                " "@,
            ) + " | "@,
            _ => ratings_part(v).len() == 0,
        },
{
    match v.entry("subRatings"@) {
        Some(JsonTree::Object(entries)) => {
            assert(entries.map_values(|e: (Seq<char>, JsonTree)| rating_text(e)) =~= Seq::new(
                entries.len(),
                |i: int|
                    entries[i].0 + " "@ + (match entries[i].1 {
                        JsonTree::Number { float_printed, .. } => float_printed,
                        _ => "0"@,
                    }),
            ));
        },
        _ => {},
    }
    match v.list_at("rooms"@) {
        Some(items) => lemma_room_lines(items),
        None => Seq::empty(),
    }
}

/// The keywords of the summary are those that have a word and a count, in order, each with its count;
/// without any the line is left out.
pub proof fn law_keywords_have_their_counts(tags: Seq<JsonTree>, v: JsonTree)
    ensures
        v.list_at("keywordTags"@) is None ==> tags_part(v).len() == 0,
        v.list_at("keywordTags"@) == Some(tags) && text::joined(tag_texts(tags), " "@).len() > 0
            ==> tags_part(v) == "好评关键词："@ + text::joined(tag_texts(tags), " "@) + "\n"@,
        tags.len() > 0 ==> {
            let t = tags.last();
            let before = tag_texts(tags.drop_last());
            match (t.text_at("word"@), t.unsigned_at("count"@)) {
                (Some(word), Some(n)) => tag_texts(tags) == before.push(
                    word + "("@ + text::dec(n as nat) + ")"@,
                ),
                _ => t.entry("word"@) is None || t.entry("count"@) is None ==> tag_texts(tags)
                    == before,
            }
        },
        tag_texts(Seq::empty()).len() == 0,
{
}

fn number_or_text(v: &serde_json::Value, key: &str) -> (r: String)
    ensures
        r@ == known_number(json::json_tree(*v), key@),
{
    match json::get(v, key) {
        Some(x) => match json::number_text(x) {
            Some(s) => s,
            None => match json::as_str(x) {
                Some(s) => s,
                None => text::copy_text("未知"),
            },
        },
        None => text::copy_text("未知"),
    }
}

fn printed_field(v: &serde_json::Value, key: &str) -> (r: String)
    ensures
        r@ == printed_or_mark(json::json_tree(*v), key@),
{
    match json::get(v, key) {
        Some(x) => json::to_text(x),
        None => text::copy_text("?"),
    }
}

fn add_head(out: &mut String, v: &serde_json::Value)
    ensures
        final(out)@ == old(out)@ + head_part(json::json_tree(*v)),
{
    out.append("已爬取酒店评论：");
    out.append(json::text_or(v, "name", "未知").as_str());
    out.append("（评分 ");
    out.append(number_or_text(v, "rating").as_str());
    out.append("，评论 ");
    out.append(number_or_text(v, "reviewCount").as_str());
    out.append(" 条，");
    out.append(json::text_or(v, "opened", "未知").as_str());
    out.append("）\n");
    assert(out@ =~= old(out)@ + head_part(json::json_tree(*v)));
}

fn add_rooms(out: &mut String, v: &serde_json::Value)
    ensures
        final(out)@ == old(out)@ + rooms_part(json::json_tree(*v)),
{
    let rooms = match json::list_at(v, "rooms") {
        Some(rooms) => rooms,
        None => {
            assert(out@ =~= old(out)@ + rooms_part(json::json_tree(*v)));
            return;
        },
    };
    let ghost all = json::json_trees(rooms@);
    if rooms.len() == 0 {
        assert(all.len() == 0);
        assert(out@ =~= old(out)@ + rooms_part(json::json_tree(*v)));
        return;
    }
    out.append("房型实时价（起价/晚）：\n");
    let ghost start = out@;
    let mut i: usize = 0;
    assert(out@ =~= start + room_lines(all.take(0)));
    while i < rooms.len()
        invariant
            i <= rooms@.len(),
            all == json::json_trees(rooms@),
            out@ == start + room_lines(all.take(i as int)),
        decreases rooms@.len() - i,
    {
        let room = &rooms[i];
        out.append("  ");
        out.append(json::text_or(room, "name", "?").as_str());
        out.append(" — ¥");
        out.append(printed_field(room, "price").as_str());
        out.append("\n");
        proof {
            assert(all.take(i + 1).drop_last() == all.take(i as int));
            assert(all.take(i + 1).last() == json::json_tree(*room));
            assert(out@ =~= start + room_lines(all.take(i + 1)));
        }
        i = i + 1;
    }
    assert(all.take(all.len() as int) == all);
    assert(out@ =~= old(out)@ + rooms_part(json::json_tree(*v)));
}

fn add_ratings(out: &mut String, v: &serde_json::Value)
    ensures
        final(out)@ == old(out)@ + ratings_part(json::json_tree(*v)),
{
    let found = match json::get(v, "subRatings") {
        Some(x) => json::as_object(x),
        None => None,
    };
    let entries = match found {
        Some(entries) => entries,
        None => {
            assert(out@ =~= old(out)@ + ratings_part(json::json_tree(*v)));
            return;
        },
    };
    let ghost trees = entries@.map_values(
        |e: (String, serde_json::Value)| (e.0@, json::json_tree(e.1)),
    );
    let ghost all = trees.map_values(|e: (Seq<char>, JsonTree)| rating_text(e));
    let mut parts: Vec<String> = Vec::new();
    let mut i: usize = 0;
    while i < entries.len()
        invariant
            i <= entries@.len(),
            trees == entries@.map_values(
                |e: (String, serde_json::Value)| (e.0@, json::json_tree(e.1)),
            ),
            all == trees.map_values(|e: (Seq<char>, JsonTree)| rating_text(e)),
            text::views(parts@) =~= all.take(i as int),
        decreases entries@.len() - i,
    {
        let mut s = text::copy_text(entries[i].0.as_str());
        s.append(" ");
        match json::float_text(&entries[i].1) {
            Some(f) => s.append(f.as_str()),
            None => s.append("0"),
        }
        proof {
            assert(trees[i as int] == (entries@[i as int].0@, json::json_tree(
                entries@[i as int].1,
            )));
            assert(s@ =~= rating_text(trees[i as int]));
            text::lemma_views_push(parts@, s);
            assert(all.take(i + 1) =~= all.take(i as int).push(all[i as int]));
        }
        parts.push(s);
        i = i + 1;
    }
    assert(all.take(all.len() as int) =~= all);
    out.append("子评分：");
    out.append(text::join(&parts, " ").as_str());
    out.append(" | ");
    assert(out@ =~= old(out)@ + ratings_part(json::json_tree(*v)));
}

fn tag_of(t: &serde_json::Value) -> (r: Option<String>)
    ensures
        match r {
            Some(s) => tag_text(json::json_tree(*t)) == Some(s@),
            None => tag_text(json::json_tree(*t)) is None,
        },
{
    match json::get(t, "word") {
        Some(w) => match json::get(t, "count") {
            Some(c) => {
                let mut s = match json::as_str(w) {
                    Some(s) => s,
                    None => String::new(),
                };
                s.append("(");
                let n: u64 = match json::as_u64(c) {
                    Some(n) => n,
                    None => 0,
                };
                s.append(text::number(n).as_str());
                s.append(")");
                Some(s)
            },
            None => None,
        },
        None => None,
    }
}

fn add_tags(out: &mut String, v: &serde_json::Value)
    ensures
        final(out)@ == old(out)@ + tags_part(json::json_tree(*v)),
{
    let items = match json::list_at(v, "keywordTags") {
        Some(items) => items,
        None => {
            assert(out@ =~= old(out)@ + tags_part(json::json_tree(*v)));
            return;
        },
    };
    let ghost all = json::json_trees(items@);
    let mut tags: Vec<String> = Vec::new();
    let mut i: usize = 0;
    assert(text::views(tags@) =~= tag_texts(all.take(0)));
    while i < items.len()
        invariant
            i <= items@.len(),
            all == json::json_trees(items@),
            text::views(tags@) == tag_texts(all.take(i as int)),
        decreases items@.len() - i,
    {
        proof {
            assert(all.take(i + 1).drop_last() == all.take(i as int));
            assert(all.take(i + 1).last() == json::json_tree(items@[i as int]));
        }
        match tag_of(&items[i]) {
            Some(s) => {
                proof {
                    text::lemma_views_push(tags@, s);
                }
                tags.push(s);
            },
            None => {},
        }
        i = i + 1;
    }
    assert(all.take(all.len() as int) == all);
    let joined = text::join(&tags, " ");
    if text::char_count(joined.as_str()) > 0 {
        out.append("好评关键词：");
        out.append(joined.as_str());
        out.append("\n");
    }
    assert(out@ =~= old(out)@ + tags_part(json::json_tree(*v)));
}

fn count_pictures(v: &serde_json::Value) -> (n: usize)
    ensures
        n == picture_count(json::json_tree(*v)),
{
    match json::list_at(v, "images") {
        Some(items) => {
            assert(json::json_trees(items@).len() == items@.len());
            items.len()
        },
        None => 0,
    }
}

fn pictures_note(c: &serde_json::Value) -> (r: String)
    ensures
        r@ == (if picture_count(json::json_tree(*c)) > 0 {
            "（含图"@ + text::dec(picture_count(json::json_tree(*c))) + "）"@
        } else {
            Seq::empty()
        }),
{
    let pictures = count_pictures(c);
    if pictures > 0 {
        let mut s = text::copy_text("（含图");
        s.append(text::number(pictures as u64).as_str());
        s.append("）");
        s
    } else {
        String::new()
    }
}

fn reply_note(c: &serde_json::Value) -> (r: String)
    ensures
        r@ == (match json::json_tree(*c).text_at("hotelReply"@) {
            Some(r) => "〔酒店回复："@ + text::shortened(r, 80) + "〕"@,
            None => Seq::empty(),
        }),
{
    match json::text_at(c, "hotelReply") {
        Some(r) => {
            let mut s = text::copy_text("〔酒店回复：");
            s.append(text::shorten(r.as_str(), 80).as_str());
            s.append("〕");
            s
        },
        None => String::new(),
    }
}

fn comment_text(n: usize, c: &serde_json::Value) -> (r: String)
    ensures
        r@ == comment_line(n as nat, json::json_tree(*c)),
{
    proof {
        reveal_strlit("");
        assert(""@ =~= Seq::<char>::empty());
    }
    let mut line = text::number(n as u64);
    line.append(". [");
    line.append(printed_field(c, "score").as_str());
    line.append("分 ");
    line.append(json::text_or(c, "date", "").as_str());
    line.append(" ");
    line.append(json::text_or(c, "province", "").as_str());
    line.append("] ");
    let full = json::text_or(c, "text", "（未取到原文）");
    line.append(text::shorten(full.as_str(), 220).as_str());
    line.append(pictures_note(c).as_str());
    line.append(reply_note(c).as_str());
    line.append("\n");
    line
}

fn add_comments(out: &mut String, v: &serde_json::Value, key: &str, title: &str)
    ensures
        final(out)@ == old(out)@ + comments_part(json::json_tree(*v), key@, title@),
{
    let list = match json::list_at(v, key) {
        Some(list) => list,
        None => {
            assert(out@ =~= old(out)@ + comments_part(json::json_tree(*v), key@, title@));
            return;
        },
    };
    let ghost all = json::json_trees(list@);
    out.append("\n");
    out.append(title);
    out.append("（");
    out.append(text::number(list.len() as u64).as_str());
    out.append(" 条采样）：\n");
    let ghost start = out@;
    let mut i: usize = 0;
    assert(out@ =~= start + comment_lines(all.take(0)));
    while i < list.len()
        invariant
            i <= list@.len(),
            all == json::json_trees(list@),
            out@ == start + comment_lines(all.take(i as int)),
        decreases list@.len() - i,
    {
        out.append(comment_text(i + 1, &list[i]).as_str());
        proof {
            assert(all.take(i + 1).drop_last() == all.take(i as int));
            assert(all.take(i + 1).last() == json::json_tree(list@[i as int]));
            assert(out@ =~= start + comment_lines(all.take(i + 1)));
        }
        i = i + 1;
    }
    assert(all.take(all.len() as int) == all);
    assert(out@ =~= old(out)@ + comments_part(json::json_tree(*v), key@, title@));
}

/// The crawler's output in words. Fields that are missing are passed over or marked.
pub fn render_summary(v: &serde_json::Value, image_dir: &str) -> (r: String)
    ensures
        r@ == summary(json::json_tree(*v), image_dir@),
{
    let ghost t = json::json_tree(*v);
    let mut out = String::new();
    add_head(&mut out, v);
    assert(out@ =~= head_part(t));
    add_rooms(&mut out, v);
    add_ratings(&mut out, v);
    let ghost before = out@;
    match json::unsigned_at(v, "dislikeCount") {
        Some(n) => {
            out.append("差评 ");
            out.append(text::number(n).as_str());
            out.append(" 条\n");
        },
        None => {},
    }
    assert(out@ =~= before + dislikes_part(t));
    add_tags(&mut out, v);
    add_comments(&mut out, v, "dislikes", "差评采样（带图/长文优先，避坑重点）");
    add_comments(&mut out, v, "good", "好评采样（长文优先）");
    let ghost body = out@;
    out.append("\n住客实拍图 ");
    out.append(text::number(count_pictures(v) as u64).as_str());
    out.append(" 张已存 ");
    out.append(image_dir);
    out.append(
        "/images/（Web 端可内联展示）。\n使用提示：差评与酒店回复是避坑金矿，总结时提炼共性问题；评分仅作参考，以差评为准排查硬伤。",
    );
    assert(out@ =~= body + pictures_part(t, image_dir@));
    out
}

// ---- How a crawl ended ----

/// How the crawler ended.
pub enum CrawlEnd {
    TimedOut,
    /// It exited, with this code where it has one; `status` is the exit in words.
    Exited { code: Option<i32>, status: String, stdout: String, stderr: String },
}

/// The last lines of a text, at most `n`.
pub open spec fn last_lines(s: Seq<char>, n: int) -> Seq<char> {
    let lines = text::lines_of(s);
    text::joined(
        if lines.len() <= n {
            lines
        } else {
            lines.skip(lines.len() - n)
        },
        "\n"@,
    )
}

fn tail_lines(s: &str, n: usize) -> (r: String)
    ensures
        r@ == last_lines(s@, n as int),
{
    let mut lines = text::lines(s);
    assert(text::views(lines@).len() == lines@.len());
    if lines.len() <= n {
        text::join(&lines, "\n")
    } else {
        let at = lines.len() - n;
        let ghost all = lines@;
        let tail = lines.split_off(at);
        assert(tail@ =~= all.skip(at as int));
        assert(text::views(tail@) =~= text::views(all).skip(at as int));
        text::join(&tail, "\n")
    }
}

/// What the crawler's output comes to once it has been read.
pub open spec fn read_output(hotel_id: Seq<char>, v: JsonTree, out_dir: Seq<char>) -> Seq<char> {
    if v.text_at("name"@) is None {
        "酒店评论爬取失败："@ + hotel_id
            + " 页面未解析出酒店信息（可能 id 有误或页面改版）。可改用 search_web 查口碑。"@
    } else {
        summary(v, out_dir)
    }
}

/// What the crawler's output comes to once it has been read.
pub fn read_value(hotel_id: &str, v: &serde_json::Value, out_dir: &str) -> (r: String)
    ensures
        r@ == read_output(hotel_id@, json::json_tree(*v), out_dir@),
{
    if json::text_at(v, "name").is_none() {
        let mut s = text::copy_text("酒店评论爬取失败：");
        s.append(hotel_id);
        s.append(
            " 页面未解析出酒店信息（可能 id 有误或页面改版）。可改用 search_web 查口碑。",
        );
        s
    } else {
        render_summary(v, out_dir)
    }
}

/// What a call is answered, by how the crawler ended.
pub open spec fn crawl_result(
    hotel_id: Seq<char>,
    end: CrawlEnd,
    out_dir: Seq<char>,
) -> Result<Seq<char>, Seq<char>> {
    match end {
        CrawlEnd::TimedOut => Ok(
            "酒店评论爬取超时（300s）："@ + hotel_id
                + "。可能是酒店评论量过大，建议稍后重试一次，或改用 search_web 查口碑。"@,
        ),
        CrawlEnd::Exited { code, status, stdout, stderr } => if code == Some(2i32) {
            Ok(
                "携程登录态已失效，评论爬取中止。请运行 `./trip hotel login` 重新扫码后再试；或改用 search_web 查该酒店口碑，不阻塞当前工作。"@,
            )
        } else if code != Some(0i32) {
            Ok(
                "酒店评论爬取失败（exit "@ + status@ + "）："@ + last_lines(stderr@, 6)
                    + "\n可改用 search_web 查该酒店口碑，不阻塞当前工作。"@,
            )
        } else {
            let body = text::trimmed(stdout@);
            match json::json_parsed(body) {
                None => Err(
                    "解析爬虫输出失败: "@ + stdout@.take(text::chars_within(stdout@, 300)) + ": "@
                        + json::json_error(body),
                ),
                Some(v) => Ok(read_output(hotel_id, v, out_dir)),
            }
        },
    }
}

/// What a result of texts holds.
pub open spec fn texts_of(r: Result<String, String>) -> Result<Seq<char>, Seq<char>> {
    match r {
        Ok(s) => Ok(s@),
        Err(e) => Err(e@),
    }
}

/// What a call is answered, by how the crawler ended.
pub fn finish(hotel_id: &str, end: &CrawlEnd, out_dir: &str) -> (r: Result<String, String>)
    ensures
        texts_of(r) == crawl_result(hotel_id@, *end, out_dir@),
{
    match end {
        CrawlEnd::TimedOut => {
            let mut s = text::copy_text("酒店评论爬取超时（300s）：");
            s.append(hotel_id);
            s.append(
                "。可能是酒店评论量过大，建议稍后重试一次，或改用 search_web 查口碑。",
            );
            Ok(s)
        },
        CrawlEnd::Exited { code, status, stdout, stderr } => {
            if *code == Some(2i32) {
                return Ok(
                    text::copy_text(
                        "携程登录态已失效，评论爬取中止。请运行 `./trip hotel login` 重新扫码后再试；或改用 search_web 查该酒店口碑，不阻塞当前工作。",
                    ),
                );
            }
            if *code != Some(0i32) {
                let mut s = text::copy_text("酒店评论爬取失败（exit ");
                s.append(status.as_str());
                s.append("）：");
                s.append(tail_lines(stderr.as_str(), 6).as_str());
                s.append("\n可改用 search_web 查该酒店口碑，不阻塞当前工作。");
                return Ok(s);
            }
            let body = text::trim(stdout.as_str());
            match json::parse_value(body.as_str()) {
                Err(cause) => {
                    let mut e = text::copy_text("解析爬虫输出失败: ");
                    e.append(text::shorten_to_bytes(stdout.as_str(), 300).as_str());
                    e.append(": ");
                    e.append(cause.as_str());
                    Err(e)
                },
                Ok(v) => Ok(read_value(hotel_id, &v, out_dir)),
            }
        },
    }
}

// ---- What a call means and how it ends ----

proof fn lemma_digits_stop(digits: Seq<char>, back: Seq<char>)
    requires
        text::all_digits(digits),
        back.len() > 0 ==> !text::is_digit(back[0]),
    ensures
        leading_digits(digits + back) == digits,
    decreases digits.len(),
{
    if digits.len() == 0 {
        assert(digits + back =~= back);
        assert(leading_digits(back) =~= digits);
    } else {
        let rest = digits.skip(1);
        assert forall|i: int| 0 <= i < rest.len() implies text::is_digit(#[trigger] rest[i]) by {
            assert(text::is_digit(digits[i + 1]));
        }
        assert(text::is_digit(digits[0]));
        lemma_digits_stop(rest, back);
        assert((digits + back).skip(1) =~= rest + back);
        assert(leading_digits(digits + back) =~= digits);
    }
}

proof fn lemma_digits_after(
    front: Seq<char>,
    marker: Seq<char>,
    digits: Seq<char>,
    back: Seq<char>,
)
    requires
        text::all_digits(digits),
        digits.len() >= 4,
        back.len() > 0 ==> !text::is_digit(back[0]),
        forall|j: int|
            0 <= j < front.len() ==> !text::occurs_at(front + marker + digits + back, marker, j),
    ensures
        digits_after(front + marker + digits + back, marker) == Some(digits),
{
    let s = front + marker + digits + back;
    let n = front.len() as int;
    assert(s.subrange(n, n + marker.len()) =~= marker);
    assert(text::occurs_at(s, marker, n));
    text::lemma_found_from(s, marker, 0);
    assert(s.skip(n + marker.len()) =~= digits + back);
    lemma_digits_stop(digits, back);
}

/// Of a link to a hotel its number is the digits behind the first `hotelId=`, behind the first
/// `hotels/` where there is no `hotelId=`, and behind the first `hoteldetail/` where there is neither,
/// as far as they go.
pub proof fn law_links_name_their_hotel(
    front: Seq<char>,
    marker: Seq<char>,
    digits: Seq<char>,
    back: Seq<char>,
)
    requires
        forall|i: int| 0 <= i < digits.len() ==> '0' <= #[trigger] digits[i] <= '9',
        digits.len() >= 4,
        back.len() > 0 ==> !('0' <= back[0] <= '9'),
        text::contains(front + marker + digits + back, "trip.com"@),
        forall|j: int|
            0 <= j < front.len() ==> !text::occurs_at(front + marker + digits + back, marker, j),
    ensures
        ({
            let s = front + marker + digits + back;
            &&& marker == "hotelId="@ ==> hotel_id(s) == Some(digits)
            &&& marker == "hotels/"@ && !text::contains(s, "hotelId="@) ==> hotel_id(s) == Some(
                digits,
            )
            &&& marker == "hoteldetail/"@ && !text::contains(s, "hotelId="@) && !text::contains(
                s,
                "hotels/"@,
            ) ==> hotel_id(s) == Some(digits)
        }),
{
    let s = front + marker + digits + back;
    lemma_digits_after(front, marker, digits, back);
    text::lemma_found_from(s, "hotelId="@, 0);
    text::lemma_found_from(s, "hotels/"@, 0);
}

/// A text that is no link is a hotel's number where it is four digits or more, white space around it
/// aside, and names none otherwise.
pub proof fn law_numbers_name_their_hotel(s: Seq<char>)
    requires
        !text::contains(s, "trip.com"@),
    ensures
        hotel_id(s) is Some <==> text::trimmed(s).len() >= 4 && forall|i: int|
            0 <= i < text::trimmed(s).len() ==> '0' <= #[trigger] text::trimmed(s)[i] <= '9',
        hotel_id(s) matches Some(d) ==> d == text::trimmed(s),
{
    reveal_strlit("trip.com");
    reveal_strlit("ctrip.com");
    if text::contains(s, "ctrip.com"@) {
        let i = choose|i: int| text::occurs_at(s, "ctrip.com"@, i);
        assert("ctrip.com"@.subrange(1, 9) =~= "trip.com"@);
        assert(s.subrange(i + 1, i + 9) =~= s.subrange(i, i + 9).subrange(1, 9));
        assert(text::occurs_at(s, "trip.com"@, i + 1));
    }
    let t = text::trimmed(s);
    assert(text::all_digits(t) <==> forall|i: int|
        0 <= i < t.len() ==> '0' <= #[trigger] t[i] <= '9');
}

/// A call asks for fifteen bad reviews, ten good ones and five pictures, unless it names other
/// numbers, and for the days that it names.
pub proof fn law_crawls_are_as_asked(args: JsonTree, raw: Seq<char>, id: Seq<char>, e: Seq<char>)
    ensures
        args.text_at("hotel_url_or_id"@) is None ==> crawl_plan(args, Ok(())) == CrawlPlanModel::Fail(
            "缺少 hotel_url_or_id 参数"@,
        ),
        args.text_at("hotel_url_or_id"@) == Some(raw) && hotel_id(raw) is None ==> crawl_plan(
            args,
            Ok(()),
        ) == CrawlPlanModel::Reply(
            "酒店评论爬取失败：无法从「"@ + raw
                + "」解析出携程酒店 id。请先用 search_web 搜「site:hotels.ctrip.com "@ + raw
                + "」拿详情页 URL（形如 hotels.ctrip.com/hotels/1286148.html）再重试。"@,
        ),
        args.text_at("hotel_url_or_id"@) == Some(raw) && hotel_id(raw) == Some(id) ==> {
            &&& crawl_plan(args, Err(e)) == CrawlPlanModel::Reply(
                "酒店评论爬取不可用："@ + e + "。本次改用 search_web 查该酒店的口碑信息即可。"@,
            )
            &&& crawl_plan(args, Ok(())) matches CrawlPlanModel::Run(c) && {
                &&& c.hotel_id == id
                &&& args.unsigned_at("dislike_limit"@) is None ==> c.dislike == 15
                &&& args.unsigned_at("dislike_limit"@) matches Some(n) ==> c.dislike == n
                &&& args.unsigned_at("good_limit"@) is None ==> c.good == 10
                &&& args.unsigned_at("good_limit"@) matches Some(n) ==> c.good == n
                &&& args.unsigned_at("image_limit"@) is None ==> c.images == 5
                &&& args.unsigned_at("image_limit"@) matches Some(n) ==> c.images == (if n < 5 {
                    n
                } else {
                    5
                })
                &&& c.checkin == args.text_at("checkin"@)
                &&& c.checkout == args.text_at("checkout"@)
            }
        },
{
}

/// The crawler is told the hotel, where its output goes, how much is asked for, and the days, as far as
/// there are any.
pub proof fn law_crawlers_are_told(c: CrawlModel, out_dir: Seq<char>)
    ensures
        ({
            let a = crawler_args(c, out_dir);
            &&& a.take(10) == seq![
                "crawl.mjs"@,
                c.hotel_id,
                "--out"@,
                out_dir,
                "--dislike"@,
                text::dec(c.dislike as nat),
                "--good"@,
                text::dec(c.good as nat),
                "--images"@,
                text::dec(c.images as nat),
            ]
            &&& (c.checkin, c.checkout) matches (None, None) ==> a.len() == 10
            &&& (c.checkin, c.checkout) matches (Some(i), None) ==> a.skip(10) == seq![
                "--checkin"@,
                i,
            ]
            &&& (c.checkin, c.checkout) matches (None, Some(o)) ==> a.skip(10) == seq![
                "--checkout"@,
                o,
            ]
            &&& (c.checkin, c.checkout) matches (Some(i), Some(o)) ==> a.skip(10) == seq![
                "--checkin"@,
                i,
                "--checkout"@,
                o,
            ]
        }),
{
}

/// A directory's number stands between its prefix and the next underscore; the largest number is that
/// of one of the directories, or nought.
pub proof fn law_directories_have_their_number(
    names: Seq<Seq<char>>,
    prefix: Seq<char>,
    n: nat,
    rest: Seq<char>,
)
    requires
        n <= u32::MAX,
    ensures
        entry_number(prefix + text::dec(n), prefix) == Some(n),
        entry_number(prefix + text::dec(n) + seq!['_'] + rest, prefix) == Some(n),
        max_number(names, prefix) == 0 || exists|i: int|
            0 <= i < names.len() && #[trigger] entry_number(names[i], prefix) == Some(
                max_number(names, prefix),
            ),
{
    let d = text::dec(n);
    let long = d + seq!['_'] + rest;
    text::lemma_dec(n);
    assert forall|i: int| 0 <= i < d.len() implies #[trigger] d[i] != '_' by {
        assert(text::is_digit(d[i]));
    }
    text::law_prefixes_and_suffixes_come_off(prefix, d);
    text::law_prefixes_and_suffixes_come_off(prefix, long);
    assert(prefix + d + seq!['_'] + rest =~= prefix + long);
    text::law_numbers_are_read_back(n, 0, u32::MAX as nat);
    lemma_first_piece(d, rest);
    lemma_max_number(names, prefix);
}

proof fn lemma_first_piece(d: Seq<char>, rest: Seq<char>)
    requires
        forall|i: int| 0 <= i < d.len() ==> #[trigger] d[i] != '_',
    ensures
        text::split_at_char(d, '_')[0] == d,
        text::split_at_char(d + seq!['_'] + rest, '_')[0] == d,
        text::split_at_char(d + seq!['_'] + rest, '_').len() >= 2,
    decreases rest.len(),
{
    text::law_pieces_are_between_separators(Seq::empty(), d, '_');
    text::law_pieces_are_between_separators(d, Seq::empty(), '_');
    if rest.len() == 0 {
        assert(d + seq!['_'] + rest =~= d.push('_') + Seq::<char>::empty());
    } else {
        let s = d + seq!['_'] + rest;
        lemma_first_piece(d, rest.drop_last());
        assert(s.drop_last() =~= d + seq!['_'] + rest.drop_last());
        assert(s.last() == rest.last());
    }
}

proof fn lemma_max_number(names: Seq<Seq<char>>, prefix: Seq<char>)
    ensures
        max_number(names, prefix) == 0 || exists|i: int|
            0 <= i < names.len() && #[trigger] entry_number(names[i], prefix) == Some(
                max_number(names, prefix),
            ),
    decreases names.len(),
{
    if names.len() > 0 {
        let front = names.drop_last();
        lemma_max_number(front, prefix);
        let most = max_number(names, prefix);
        if most != 0 {
            if entry_number(names.last(), prefix) == Some(most) {
                assert(entry_number(names[names.len() - 1], prefix) == Some(most));
            } else {
                let i = choose|i: int|
                    0 <= i < front.len() && #[trigger] entry_number(front[i], prefix) == Some(most);
                assert(entry_number(names[i], prefix) == Some(most));
            }
        }
    }
}

/// A crawl that took too long, lost its login or failed is told with what to do instead; one that went
/// well gives its summary, unless it found no hotel or cannot be read.
pub proof fn law_crawls_end(
    id: Seq<char>,
    code: Option<i32>,
    status: String,
    stdout: String,
    stderr: String,
    dir: Seq<char>,
)
    ensures
        crawl_result(id, CrawlEnd::TimedOut, dir) == Ok::<Seq<char>, Seq<char>>(
            "酒店评论爬取超时（300s）："@ + id
                + "。可能是酒店评论量过大，建议稍后重试一次，或改用 search_web 查口碑。"@,
        ),
        ({
            let r = crawl_result(id, CrawlEnd::Exited { code, status, stdout, stderr }, dir);
            let lines = text::lines_of(stderr@);
            &&& code == Some(2i32) ==> r == Ok::<Seq<char>, Seq<char>>(
                "携程登录态已失效，评论爬取中止。请运行 `./trip hotel login` 重新扫码后再试；或改用 search_web 查该酒店口碑，不阻塞当前工作。"@,
            )
            &&& code != Some(2i32) && code != Some(0i32) && lines.len() <= 6 ==> r == Ok::<
                Seq<char>,
                Seq<char>,
            >(
                "酒店评论爬取失败（exit "@ + status@ + "）："@ + text::joined(lines, "\n"@)
                    + "\n可改用 search_web 查该酒店口碑，不阻塞当前工作。"@,
            )
            &&& code != Some(2i32) && code != Some(0i32) && lines.len() > 6 ==> r == Ok::<
                Seq<char>,
                Seq<char>,
            >(
                "酒店评论爬取失败（exit "@ + status@ + "）："@ + text::joined(
                    lines.skip(lines.len() - 6),
                    "\n"@,
                ) + "\n可改用 search_web 查该酒店口碑，不阻塞当前工作。"@,
            )
            &&& code == Some(0i32) ==> (match json::json_read(text::trimmed(stdout@)) {
                Ok(v) => r == Ok::<Seq<char>, Seq<char>>(
                    if v.text_at("name"@) is Some {
                        summary(v, dir)
                    } else {
                        "酒店评论爬取失败："@ + id
                            + " 页面未解析出酒店信息（可能 id 有误或页面改版）。可改用 search_web 查口碑。"@
                    },
                ),
                Err(cause) => r == Err::<Seq<char>, Seq<char>>(
                    "解析爬虫输出失败: "@ + stdout@.take(text::chars_within(stdout@, 300)) + ": "@
                        + cause,
                ),
            })
        }),
{
}

} // verus!
