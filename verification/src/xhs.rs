//! The notes service: reading its replies, and deciding what to ask of it.

use vstd::prelude::*;

use crate::hotel;
use crate::json;
use crate::json::JsonTree;
use crate::llm;
use crate::text;

verus! {

/// How likely, in percent, a note that was read is liked.
pub const LIKE_PROBABILITY_PCT: u64 = 5;

// ---- Texts ----

/// A text cut to a number of characters, with a mark where something was cut off.
pub open spec fn truncated(s: Seq<char>, max_chars: int) -> Seq<char> {
    if s.len() <= max_chars {
        s
    } else {
        s.take(max_chars) + "\n…（内容过长已截断）"@
    }
}

pub fn truncate(s: &str, max_chars: usize) -> (r: String)
    ensures
        r@ == truncated(s@, max_chars as int),
{
    if text::char_count(s) <= max_chars {
        text::copy_text(s)
    } else {
        let mut r = text::shorten(s, max_chars);
        r.append("\n…（内容过长已截断）");
        r
    }
}

/// A cut text keeps the front of the text and is longer than allowed only by the mark.
pub proof fn law_truncation_keeps_the_front(s: Seq<char>, max_chars: int)
    requires
        max_chars >= 0,
    ensures
        s.len() <= max_chars ==> truncated(s, max_chars) == s,
        s.len() > max_chars ==> truncated(s, max_chars).take(max_chars) == s.take(max_chars),
        truncated(s, max_chars).len() <= max_chars + 12,
{
    reveal_strlit("\n…（内容过长已截断）");
    if s.len() > max_chars {
        assert(truncated(s, max_chars).take(max_chars) =~= s.take(max_chars));
    }
}

/// The last data line of an event stream that carries anything.
pub open spec fn last_data(lines: Seq<Seq<char>>) -> Option<Seq<char>>
    decreases lines.len(),
{
    if lines.len() == 0 {
        None
    } else {
        match text::after_prefix(lines.last(), "data:"@) {
            Some(d) => if text::trimmed(d).len() > 0 {
                Some(text::trimmed(d))
            } else {
                last_data(lines.drop_last())
            },
            None => last_data(lines.drop_last()),
        }
    }
}

/// The reply in an event stream: the last data line that carries anything.
pub fn sse_payload(body: &str) -> (r: Result<String, String>)
    ensures
        match r {
            Ok(s) => last_data(text::lines_of(body@)) == Some(s@),
            Err(e) => last_data(text::lines_of(body@)) is None && e@ == "SSE 响应中没有 data 帧: "@
                + truncated(body@, 300),
        },
{
    let lines = text::lines(body);
    let ghost all = text::views(lines@);
    let mut i: usize = lines.len();
    assert(all.take(all.len() as int) =~= all);
    while i > 0
        invariant
            i <= lines@.len(),
            all == text::views(lines@),
            all == text::lines_of(body@),
            last_data(all) == last_data(all.take(i as int)),
        decreases i,
    {
        proof {
            assert(all.take(i as int).drop_last() =~= all.take(i - 1));
            assert(all.take(i as int).last() == lines@[i - 1]@);
        }
        match text::strip_prefix(lines[i - 1].as_str(), "data:") {
            Some(d) => {
                let t = text::trim(d.as_str());
                if text::char_count(t.as_str()) > 0 {
                    return Ok(t);
                }
            },
            None => {},
        }
        i = i - 1;
    }
    let mut e = text::copy_text("SSE 响应中没有 data 帧: ");
    e.append(truncate(body, 300).as_str());
    Err(e)
}

/// The reply in a response: out of an event stream where it is one.
pub fn reply_body(content_type: &str, body: String) -> (r: Result<String, String>)
    ensures
        hotel::texts_of(r) == (if text::contains(content_type@, "text/event-stream"@) {
            match last_data(text::lines_of(body@)) {
                Some(s) => Ok(s),
                None => Err("SSE 响应中没有 data 帧: "@ + truncated(body@, 300)),
            }
        } else {
            Ok(body@)
        }),
{
    if text::has_text(content_type, "text/event-stream") {
        sse_payload(body.as_str())
    } else {
        Ok(body)
    }
}

// ---- Replies ----

/// A piece of a tool's result.
pub struct RpcContent {
    pub kind: String,
    pub text: String,
    pub data: String,
    pub mime_type: String,
}

pub struct RpcResult {
    pub content: Vec<RpcContent>,
    pub is_error: bool,
}

/// A reply to a call: the message of an error, or a result.
pub struct RpcReply {
    pub result: Option<RpcResult>,
    pub error: Option<String>,
}

/// The texts of the pieces.
pub open spec fn piece_texts(content: Seq<RpcContent>) -> Seq<Seq<char>> {
    content.map_values(|c: RpcContent| c.text@)
}

/// The text of a reply, or what is wrong with it; `parsed` is the reply as it was read, or why it
/// could not be.
pub open spec fn tool_text(raw: Seq<char>, parsed: Result<RpcReply, String>) -> Result<
    Seq<char>,
    Seq<char>,
> {
    match parsed {
        Err(cause) => Err("解析 MCP 响应失败: "@ + truncated(raw, 300) + ": "@ + cause@),
        Ok(reply) => match reply.error {
            Some(message) => Err("xiaohongshu-mcp 错误: "@ + message@),
            None => match reply.result {
                None => Err("MCP 响应缺 result: "@ + truncated(raw, 300)),
                Some(result) => {
                    let t = text::joined(piece_texts(result.content@), "\n"@);
                    if result.is_error {
                        Err(
                            "小红书工具执行失败："@ + truncated(t, 300)
                                + "（常见原因：服务未扫码登录 / xsec_token 过期，重新 search 一次即可）"@,
                        )
                    } else if t.len() == 0 {
                        Err("xiaohongshu-mcp 返回空内容"@)
                    } else {
                        Ok(t)
                    }
                },
            },
        },
    }
}

fn texts_of_pieces(content: &Vec<RpcContent>) -> (r: Vec<String>)
    ensures
        text::views(r@) == piece_texts(content@),
{
    let ghost all = piece_texts(content@);
    let mut r: Vec<String> = Vec::new();
    let mut i: usize = 0;
    while i < content.len()
        invariant
            i <= content@.len(),
            all == piece_texts(content@),
            text::views(r@) =~= all.take(i as int),
        decreases content@.len() - i,
    {
        let t = text::copy_text(content[i].text.as_str());
        proof {
            text::lemma_views_push(r@, t);
            assert(all.take(i + 1) =~= all.take(i as int).push(all[i as int]));
        }
        r.push(t);
        i = i + 1;
    }
    assert(all.take(all.len() as int) =~= all);
    r
}

/// The text of a reply. Errors, results that say they are errors and empty results are failures.
pub fn extract_tool_text(json_str: &str, parsed: &Result<RpcReply, String>) -> (r: Result<
    String,
    String,
>)
    ensures
        hotel::texts_of(r) == tool_text(json_str@, *parsed),
{
    let reply = match parsed {
        Ok(reply) => reply,
        Err(cause) => {
            let mut e = text::copy_text("解析 MCP 响应失败: ");
            e.append(truncate(json_str, 300).as_str());
            e.append(": ");
            e.append(cause.as_str());
            return Err(e);
        },
    };
    match &reply.error {
        Some(message) => {
            let mut e = text::copy_text("xiaohongshu-mcp 错误: ");
            e.append(message.as_str());
            return Err(e);
        },
        None => {},
    }
    match &reply.result {
        None => {
            let mut e = text::copy_text("MCP 响应缺 result: ");
            e.append(truncate(json_str, 300).as_str());
            Err(e)
        },
        Some(result) => {
            let pieces = texts_of_pieces(&result.content);
            let t = text::join(&pieces, "\n");
            if result.is_error {
                let mut e = text::copy_text("小红书工具执行失败：");
                e.append(truncate(t.as_str(), 300).as_str());
                e.append(
                    "（常见原因：服务未扫码登录 / xsec_token 过期，重新 search 一次即可）",
                );
                return Err(e);
            }
            if text::char_count(t.as_str()) == 0 {
                return Err(text::copy_text("xiaohongshu-mcp 返回空内容"));
            }
            Ok(t)
        },
    }
}

// ---- The login code ----

/// The picture of a login code, in Base64 without a prefix.
pub struct XhsLoginQr {
    pub data: String,
    pub mime_type: String,
    pub text: Option<String>,
}

pub struct XhsLoginQrModel {
    pub data: Seq<char>,
    pub mime_type: Seq<char>,
    pub text: Option<Seq<char>>,
}

impl View for XhsLoginQr {
    type V = XhsLoginQrModel;

    open spec fn view(&self) -> XhsLoginQrModel {
        XhsLoginQrModel {
            data: self.data@,
            mime_type: self.mime_type@,
            text: llm::opt_text(self.text),
        }
    }
}

/// Where the first piece stands that is a picture with data.
pub open spec fn picture_at(content: Seq<RpcContent>, from: int) -> Option<int>
    decreases content.len() - from,
{
    if from < 0 || from >= content.len() {
        None
    } else if content[from].kind@ == "image"@ && text::trimmed(content[from].data@).len() > 0 {
        Some(from)
    } else {
        picture_at(content, from + 1)
    }
}

/// The text of the first piece that is a text and not empty.
pub open spec fn caption_of(content: Seq<RpcContent>, from: int) -> Option<Seq<char>>
    decreases content.len() - from,
{
    if from < 0 || from >= content.len() {
        None
    } else if content[from].kind@ == "text"@ && content[from].text@.len() > 0 {
        Some(content[from].text@)
    } else {
        caption_of(content, from + 1)
    }
}

/// Where the first comma stands.
pub open spec fn comma_in(s: Seq<char>) -> Option<int> {
    text::found_from(s, seq![','], 0)
}

/// The kind and data of a picture: out of a data address where it is one, else as they are.
pub open spec fn picture_parts(c: RpcContent) -> (Seq<char>, Seq<char>) {
    match comma_in(c.data@) {
        Some(i) => {
            let prefix = c.data@.take(i);
            match text::after_prefix(prefix, "data:"@) {
                Some(value) => (text::split_at_char(value, ';')[0], c.data@.skip(i + 1)),
                None => (c.mime_type@, c.data@),
            }
        },
        None => (c.mime_type@, c.data@),
    }
}

/// The login code of a reply, or what is wrong with the reply.
pub open spec fn login_code(raw: Seq<char>, parsed: Result<RpcReply, String>) -> Result<
    XhsLoginQrModel,
    Seq<char>,
> {
    match parsed {
        Err(cause) => Err(
            "解析小红书二维码响应失败："@ + truncated(raw, 300) + ": "@ + cause@,
        ),
        Ok(reply) => match reply.error {
            Some(message) => Err("xiaohongshu-mcp 错误："@ + message@),
            None => match reply.result {
                None => Err("二维码响应缺少 result"@),
                Some(result) => if result.is_error {
                    Err("小红书二维码获取失败"@)
                } else {
                    match picture_at(result.content@, 0) {
                        None => Err("小红书响应中没有二维码图片"@),
                        Some(i) => {
                            let (mime, data) = picture_parts(result.content@[i]);
                            Ok(
                                XhsLoginQrModel {
                                    data,
                                    mime_type: if mime.len() == 0 {
                                        "image/png"@
                                    } else {
                                        mime
                                    },
                                    text: caption_of(result.content@, 0),
                                },
                            )
                        },
                    }
                },
            },
        },
    }
}

fn find_picture(content: &Vec<RpcContent>) -> (r: Option<usize>)
    ensures
        match r {
            Some(i) => picture_at(content@, 0) == Some(i as int) && i < content@.len(),
            None => picture_at(content@, 0) is None,
        },
{
    let mut i: usize = 0;
    while i < content.len()
        invariant
            i <= content@.len(),
            picture_at(content@, 0) == picture_at(content@, i as int),
        decreases content@.len() - i,
    {
        if text::same(content[i].kind.as_str(), "image") {
            let bare = text::trim(content[i].data.as_str());
            if text::char_count(bare.as_str()) > 0 {
                return Some(i);
            }
        }
        i = i + 1;
    }
    None
}

fn find_caption(content: &Vec<RpcContent>) -> (r: Option<String>)
    ensures
        llm::opt_text(r) == caption_of(content@, 0),
{
    let mut i: usize = 0;
    while i < content.len()
        invariant
            i <= content@.len(),
            caption_of(content@, 0) == caption_of(content@, i as int),
        decreases content@.len() - i,
    {
        if text::same(content[i].kind.as_str(), "text") && text::char_count(
            content[i].text.as_str(),
        ) > 0 {
            return Some(text::copy_text(content[i].text.as_str()));
        }
        i = i + 1;
    }
    None
}

fn parts_of_picture(c: &RpcContent) -> (r: (String, String))
    ensures
        (r.0@, r.1@) == picture_parts(*c),
{
    proof {
        reveal_strlit(",");
        assert(","@ =~= seq![',']);
    }
    match text::find_from(c.data.as_str(), ",", 0) {
        Some(i) => {
            let v = text::chars_of(c.data.as_str());
            let prefix = text::text_between(&v, 0, i);
            assert(prefix@ =~= c.data@.take(i as int));
            match text::strip_prefix(prefix.as_str(), "data:") {
                Some(value) => {
                    let pieces = text::split(value.as_str(), ';');
                    assert(text::views(pieces@)[0] == pieces@[0]@);
                    assert(i + 1 <= v.len());
                    let data = text::text_between(&v, i + 1, v.len());
                    assert(data@ =~= c.data@.skip(i + 1));
                    (text::copy_text(pieces[0].as_str()), data)
                },
                None => (
                    text::copy_text(c.mime_type.as_str()),
                    text::copy_text(c.data.as_str()),
                ),
            }
        },
        None => (text::copy_text(c.mime_type.as_str()), text::copy_text(c.data.as_str())),
    }
}

/// What a result of a login code holds.
pub open spec fn qr_result(r: Result<XhsLoginQr, String>) -> Result<XhsLoginQrModel, Seq<char>> {
    match r {
        Ok(q) => Ok(q@),
        Err(e) => Err(e@),
    }
}

/// The login code of a reply.
pub fn parse_login_qrcode(json_str: &str, parsed: &Result<RpcReply, String>) -> (r: Result<
    XhsLoginQr,
    String,
>)
    ensures
        qr_result(r) == login_code(json_str@, *parsed),
{
    let reply = match parsed {
        Ok(reply) => reply,
        Err(cause) => {
            let mut e = text::copy_text("解析小红书二维码响应失败：");
            e.append(truncate(json_str, 300).as_str());
            e.append(": ");
            e.append(cause.as_str());
            return Err(e);
        },
    };
    match &reply.error {
        Some(message) => {
            let mut e = text::copy_text("xiaohongshu-mcp 错误：");
            e.append(message.as_str());
            return Err(e);
        },
        None => {},
    }
    let result = match &reply.result {
        Some(result) => result,
        None => return Err(text::copy_text("二维码响应缺少 result")),
    };
    if result.is_error {
        return Err(text::copy_text("小红书二维码获取失败"));
    }
    match find_picture(&result.content) {
        None => Err(text::copy_text("小红书响应中没有二维码图片")),
        Some(i) => {
            let (mime, data) = parts_of_picture(&result.content[i]);
            let mime_type = if text::char_count(mime.as_str()) == 0 {
                text::copy_text("image/png")
            } else {
                mime
            };
            Ok(XhsLoginQr { data, mime_type, text: find_caption(&result.content) })
        },
    }
}

// ---- Searching ----

/// The value with a list under `feeds` cut to its first `n` items, where it has one.
pub open spec fn fewer_feeds(v: JsonTree, n: int) -> Option<JsonTree> {
    match v.list_at("feeds"@) {
        Some(items) => Some(
            v.with_entry(
                "feeds"@,
                JsonTree::List(
                    if items.len() <= n {
                        items
                    } else {
                        items.take(n)
                    },
                ),
            ),
        ),
        None => None,
    }
}

/// A search's answer with at most `n` notes. An answer that is not JSON, or has no list of notes,
/// stays as it is.
pub fn limit_feeds(body: &str, n: usize) -> (r: String)
    ensures
        r@ == (match json::json_parsed(body@) {
            Some(v) => match fewer_feeds(v, n as int) {
                Some(t) => json::json_pretty(t),
                None => body@,
            },
            None => body@,
        }),
{
    match json::parse_value(body) {
        Ok(v) => match limit_value(v, n) {
            Some(s) => s,
            None => text::copy_text(body),
        },
        Err(_) => text::copy_text(body),
    }
}

/// A search's answer with at most `n` notes, where it has a list of notes.
pub fn limit_value(v: serde_json::Value, n: usize) -> (r: Option<String>)
    ensures
        match fewer_feeds(json::json_tree(v), n as int) {
            Some(t) => r matches Some(s) && s@ == json::json_pretty(t),
            None => r is None,
        },
{
    let items = match json::list_at(&v, "feeds") {
        Some(items) => items,
        None => return None,
    };
    let ghost all = json::json_trees(items@);
    let ghost wanted = if all.len() <= n {
        all
    } else {
        all.take(n as int)
    };
    let mut kept: Vec<serde_json::Value> = Vec::new();
    let mut i: usize = 0;
    while i < items.len() && i < n
        invariant
            i <= items@.len(),
            i <= n,
            all == json::json_trees(items@),
            json::json_trees(kept@) =~= all.take(i as int),
        decreases items@.len() - i,
    {
        let item = json::copy_value(&items[i]);
        let ghost before = kept@;
        kept.push(item);
        proof {
            assert(json::json_trees(kept@) =~= json::json_trees(before).push(
                json::json_tree(item),
            ));
            assert(all.take(i + 1) =~= all.take(i as int).push(all[i as int]));
        }
        i = i + 1;
    }
    assert(json::json_trees(kept@) =~= wanted);
    let list = json::list_value(kept);
    let out = json::with_item(v, "feeds", list);
    match json::to_pretty_text(&out) {
        Ok(s) => Some(s),
        Err(_) => None,
    }
}

/// A search as it is sent: the keyword, and the filters that were given, by name.
pub struct SearchPayload {
    pub keyword: String,
    pub filters: Vec<(String, String)>,
}

/// The filter of a name, where it was given.
pub open spec fn filter_of(args: JsonTree, key: Seq<char>) -> Seq<(Seq<char>, Seq<char>)> {
    match args.text_at(key) {
        Some(v) => seq![(key, v)],
        None => seq![],
    }
}

pub open spec fn filters_of(args: JsonTree) -> Seq<(Seq<char>, Seq<char>)> {
    filter_of(args, "sort_by"@) + filter_of(args, "note_type"@) + filter_of(args, "publish_time"@)
}

pub open spec fn filter_views(f: Seq<(String, String)>) -> Seq<(Seq<char>, Seq<char>)> {
    f.map_values(|p: (String, String)| (p.0@, p.1@))
}

fn add_filter(filters: &mut Vec<(String, String)>, args: &serde_json::Value, key: &str)
    ensures
        filter_views(final(filters)@) == filter_views(old(filters)@) + filter_of(
            json::json_tree(*args),
            key@,
        ),
{
    match json::text_at(args, key) {
        Some(v) => {
            filters.push((text::copy_text(key), v));
        },
        None => {},
    }
    assert(filter_views(filters@) =~= filter_views(old(filters)@) + filter_of(
        json::json_tree(*args),
        key@,
    ));
}

/// The search that a call asks for.
pub fn search_payload(args: &serde_json::Value) -> (r: Result<SearchPayload, String>)
    ensures
        match r {
            Ok(p) => {
                &&& json::json_tree(*args).text_at("keyword"@) == Some(p.keyword@)
                &&& filter_views(p.filters@) == filters_of(json::json_tree(*args))
            },
            Err(e) => json::json_tree(*args).text_at("keyword"@) is None && e@
                == "search_xhs 缺少 keyword 参数"@,
        },
{
    let keyword = match json::text_at(args, "keyword") {
        Some(s) => s,
        None => return Err(text::copy_text("search_xhs 缺少 keyword 参数")),
    };
    let mut filters: Vec<(String, String)> = Vec::new();
    assert(filter_views(filters@) =~= Seq::<(Seq<char>, Seq<char>)>::empty());
    add_filter(&mut filters, args, "sort_by");
    add_filter(&mut filters, args, "note_type");
    add_filter(&mut filters, args, "publish_time");
    assert(filter_views(filters@) =~= filters_of(json::json_tree(*args)));
    Ok(SearchPayload { keyword, filters })
}

/// What a search is answered, from what came back and how many notes are to be looked at.
pub fn search_answer(body: &str, keep: usize) -> (r: String)
    ensures
        r@ == truncated(
            match json::json_parsed(body@) {
                Some(v) => match fewer_feeds(v, keep as int) {
                    Some(t) => json::json_pretty(t),
                    None => body@,
                },
                None => body@,
            },
            16000,
        ),
{
    truncate(limit_feeds(body, keep).as_str(), 16000)
}

// ---- Reading a note ----

/// A note as it is asked for: how many comments, where any.
pub struct NotePayload {
    pub feed_id: String,
    pub xsec_token: String,
    pub limit: Option<u64>,
}

/// How many comments are read: what was asked for, at most ten, or a chance number; none where they
/// were turned down.
pub open spec fn comment_limit(
    load_all: Option<bool>,
    limit: Option<u64>,
    chance: u64,
) -> Option<u64> {
    if load_all == Some(false) {
        None
    } else {
        match limit {
            Some(n) => Some(
                if n < 10 {
                    n
                } else {
                    10
                },
            ),
            None => if load_all == Some(true) {
                Some(10)
            } else {
                Some(chance)
            },
        }
    }
}

/// Never more than ten comments are read of a note, as long as the chance number is no larger.
pub proof fn law_comments_are_few(load_all: Option<bool>, limit: Option<u64>, chance: u64)
    requires
        chance <= 10,
    ensures
        comment_limit(load_all, limit, chance) matches Some(n) ==> n <= 10,
{
}

/// The note that a call asks for; `chance` is a number of comments drawn at random.
pub fn note_payload(args: &serde_json::Value, chance: u64) -> (r: Result<NotePayload, String>)
    ensures
        ({
            let t = json::json_tree(*args);
            match r {
                Ok(p) => {
                    &&& t.text_at("feed_id"@) == Some(p.feed_id@)
                    &&& t.text_at("xsec_token"@) == Some(p.xsec_token@)
                    &&& p.limit == comment_limit(
                        t.boolean_at("load_all_comments"@),
                        t.unsigned_at("limit"@),
                        chance,
                    )
                },
                Err(e) => if t.text_at("feed_id"@) is None {
                    e@ == "read_xhs_note 缺少 feed_id 参数"@
                } else {
                    t.text_at("xsec_token"@) is None && e@
                        == "read_xhs_note 缺少 xsec_token 参数（从 search_xhs 结果获取）"@
                },
            }
        }),
{
    let feed_id = match json::text_at(args, "feed_id") {
        Some(s) => s,
        None => return Err(text::copy_text("read_xhs_note 缺少 feed_id 参数")),
    };
    let xsec_token = match json::text_at(args, "xsec_token") {
        Some(s) => s,
        None => return Err(
            text::copy_text("read_xhs_note 缺少 xsec_token 参数（从 search_xhs 结果获取）"),
        ),
    };
    let load_all = json::bool_at(args, "load_all_comments");
    let asked = json::unsigned_at(args, "limit");
    let limit = match load_all {
        Some(false) => None,
        Some(true) => match asked {
            Some(n) => Some(
                if n < 10 {
                    n
                } else {
                    10
                },
            ),
            None => Some(10),
        },
        None => match asked {
            Some(n) => Some(
                if n < 10 {
                    n
                } else {
                    10
                },
            ),
            None => Some(chance),
        },
    };
    Ok(NotePayload { feed_id, xsec_token, limit })
}

/// Whether a chance number from 1 to 100 asks for a like.
pub fn likes(chance: u64) -> (b: bool)
    ensures
        b == (chance <= LIKE_PROBABILITY_PCT),
{
    chance <= LIKE_PROBABILITY_PCT
}

/// What reading a note is answered; `like` is how liking it went, where it was tried.
pub open spec fn note_text(body: Seq<char>, like: Option<Result<(), Seq<char>>>) -> Seq<char> {
    let out = truncated(body, 24000);
    match like {
        None => out,
        Some(Ok(_)) => out + "\n\n（已顺手为该笔记点赞）"@,
        Some(Err(e)) => out + "\n\n（顺手点赞未成功，不影响阅读："@ + e + "）"@,
    }
}

pub fn note_answer(body: &str, like: &Option<Result<(), String>>) -> (r: String)
    ensures
        r@ == note_text(
            body@,
            match *like {
                None => None,
                Some(x) => Some(crate::mode::result_text(x)),
            },
        ),
{
    let mut out = truncate(body, 24000);
    match like {
        None => {},
        Some(Ok(_)) => {
            out.append("\n\n（已顺手为该笔记点赞）");
        },
        Some(Err(e)) => {
            out.append("\n\n（顺手点赞未成功，不影响阅读：");
            out.append(e.as_str());
            out.append("）");
        },
    }
    out
}

/// What a failure is answered: with what to do about it.
pub fn friendly(e: &str) -> (r: String)
    ensures
        r@ == "小红书工具失败："@ + e@
            + "\n（提示：需本机 xiaohongshu-mcp 服务运行且已扫码登录；服务不可用属正常情况，改用 search_web 继续即可，不阻塞当前工作）"@,
{
    let mut s = text::copy_text("小红书工具失败：");
    s.append(e);
    s.append(
        "\n（提示：需本机 xiaohongshu-mcp 服务运行且已扫码登录；服务不可用属正常情况，改用 search_web 继续即可，不阻塞当前工作）",
    );
    s
}

// ---- Calls ----

/// What follows the response to a call.
#[derive(Clone, Copy, PartialEq, Eq, Structural, Debug)]
pub enum CallStep {
    /// The response is read.
    Read,
    /// The session has probably ended: a new one is opened and the call made once more.
    Reconnect,
    /// The call fails.
    Fail,
}

/// What follows the response to the first attempt at a call, by its status.
pub fn after_response(status: u16) -> (s: CallStep)
    ensures
        s == (if 200 <= status < 300 {
            CallStep::Read
        } else if status == 400 || status == 404 {
            CallStep::Reconnect
        } else {
            CallStep::Fail
        }),
{
    if 200 <= status && status < 300 {
        CallStep::Read
    } else if status == 400 || status == 404 {
        CallStep::Reconnect
    } else {
        CallStep::Fail
    }
}

/// What is said of a call that failed; `status` is the status in words.
pub fn call_failure(status: &str, body: &str) -> (r: String)
    ensures
        r@ == "MCP tools/call 失败 "@ + status@ + ": "@ + truncated(body@, 300),
{
    let mut s = text::copy_text("MCP tools/call 失败 ");
    s.append(status);
    s.append(": ");
    s.append(truncate(body, 300).as_str());
    s
}

/// What is said of a session that could not be opened.
pub fn open_failure(status: &str, body: &str) -> (r: String)
    ensures
        r@ == "MCP initialize 失败 "@ + status@ + ": "@ + truncated(body@, 300),
{
    let mut s = text::copy_text("MCP initialize 失败 ");
    s.append(status);
    s.append(": ");
    s.append(truncate(body, 300).as_str());
    s
}

// ---- What is asked and told ----

/// A text that is cut says so behind its front.
pub proof fn law_cut_texts_say_so(s: Seq<char>, max_chars: int)
    requires
        0 <= max_chars < s.len(),
    ensures
        truncated(s, max_chars) == s.take(max_chars) + "\n…（内容过长已截断）"@,
{
}

/// Of an event stream the last line of data that is not blank counts.
pub proof fn law_last_data_counts(lines: Seq<Seq<char>>, line: Seq<char>)
    ensures
        last_data(Seq::empty()) is None,
        text::trimmed(line).len() > 0 ==> last_data(lines.push("data:"@ + line)) == Some(
            text::trimmed(line),
        ),
        text::trimmed(line).len() == 0 ==> last_data(lines.push("data:"@ + line)) == last_data(
            lines,
        ),
        !text::has_prefix(line, "data:"@) ==> last_data(lines.push(line)) == last_data(lines),
{
    assert(lines.push(line).drop_last() =~= lines);
    let data = "data:"@ + line;
    assert(lines.push(data).drop_last() =~= lines);
    assert(data.take("data:"@.len() as int) =~= "data:"@);
    assert(data.skip("data:"@.len() as int) =~= line);
}

/// A reply gives the texts of its pieces, line by line, exactly where it is readable, has a result
/// that is no failure, and has any text; an error goes before a result, and each failure is told.
pub proof fn law_replies_give_their_text(raw: Seq<char>, parsed: Result<RpcReply, String>)
    ensures
        parsed matches Err(cause) ==> tool_text(raw, parsed) == Err::<Seq<char>, Seq<char>>(
            "解析 MCP 响应失败: "@ + truncated(raw, 300) + ": "@ + cause@,
        ),
        parsed matches Ok(reply) ==> {
            &&& reply.error matches Some(message) ==> tool_text(raw, parsed) == Err::<
                Seq<char>,
                Seq<char>,
            >("xiaohongshu-mcp 错误: "@ + message@)
            &&& reply.error is None && reply.result is None ==> tool_text(raw, parsed) == Err::<
                Seq<char>,
                Seq<char>,
            >("MCP 响应缺 result: "@ + truncated(raw, 300))
            &&& reply.error is None ==> (reply.result matches Some(result) ==> {
                let t = text::joined(
                    Seq::new(result.content@.len(), |i: int| result.content@[i].text@),
                    "\n"@,
                );
                &&& result.is_error ==> tool_text(raw, parsed) == Err::<Seq<char>, Seq<char>>(
                    "小红书工具执行失败："@ + truncated(t, 300)
                        + "（常见原因：服务未扫码登录 / xsec_token 过期，重新 search 一次即可）"@,
                )
                &&& !result.is_error && t.len() == 0 ==> tool_text(raw, parsed) == Err::<
                    Seq<char>,
                    Seq<char>,
                >("xiaohongshu-mcp 返回空内容"@)
                &&& !result.is_error && t.len() > 0 ==> tool_text(raw, parsed) == Ok::<
                    Seq<char>,
                    Seq<char>,
                >(t)
            })
        },
{
    match parsed {
        Ok(reply) => match reply.result {
            Some(result) => {
                assert(piece_texts(result.content@) =~= Seq::new(
                    result.content@.len(),
                    |i: int| result.content@[i].text@,
                ));
            },
            None => {},
        },
        Err(_) => {},
    }
}

proof fn lemma_picture_at(content: Seq<RpcContent>, from: int)
    requires
        0 <= from,
    ensures
        match picture_at(content, from) {
            Some(i) => from <= i < content.len() && content[i].kind@ == "image"@ && text::trimmed(
                content[i].data@,
            ).len() > 0 && forall|j: int|
                from <= j < i ==> (#[trigger] content[j]).kind@ != "image"@ || text::trimmed(
                    content[j].data@,
                ).len() == 0,
            None => forall|j: int|
                from <= j < content.len() ==> (#[trigger] content[j]).kind@ != "image"@
                    || text::trimmed(content[j].data@).len() == 0,
        },
    decreases content.len() - from,
{
    if from < content.len() && !(content[from].kind@ == "image"@ && text::trimmed(
        content[from].data@,
    ).len() > 0) {
        lemma_picture_at(content, from + 1);
    }
}

/// A login code is the first picture of a reply with data; a reply without one, a failed one and one
/// with an error give none.
pub proof fn law_login_codes_are_pictures(raw: Seq<char>, reply: RpcReply)
    ensures
        reply.error is Some || reply.result is None ==> login_code(raw, Ok(reply)) is Err,
        reply.error is None ==> (reply.result matches Some(result) ==> {
            let pictures = exists|i: int|
                0 <= i < result.content@.len() && (#[trigger] result.content@[i]).kind@ == "image"@
                    && text::trimmed(result.content@[i].data@).len() > 0;
            &&& login_code(raw, Ok(reply)) is Ok <==> !result.is_error && pictures
            &&& login_code(raw, Ok(reply)) matches Ok(code) ==> exists|i: int|
                0 <= i < result.content@.len() && (#[trigger] result.content@[i]).kind@ == "image"@
                    && code.data == picture_parts(result.content@[i]).1 && code.mime_type.len() > 0
                    && (picture_parts(result.content@[i]).0.len() > 0 ==> code.mime_type
                    == picture_parts(result.content@[i]).0)
        }),
{
    match reply.result {
        Some(result) => {
            lemma_picture_at(result.content@, 0);
            reveal_strlit("image/png");
            match picture_at(result.content@, 0) {
                Some(i) => {
                    assert(result.content@[i].kind@ == "image"@);
                },
                None => {},
            }
        },
        None => {},
    }
}

/// Of the notes that a search found only the first few are kept, and everything else stays; an answer
/// without notes is left alone.
pub proof fn law_few_notes_are_kept(v: JsonTree, n: int)
    requires
        0 <= n,
    ensures
        v.list_at("feeds"@) is None ==> fewer_feeds(v, n) is None,
        v.list_at("feeds"@) matches Some(items) ==> {
            let kept = if items.len() <= n {
                items
            } else {
                items.take(n)
            };
            &&& fewer_feeds(v, n) is Some
            &&& v matches JsonTree::Object(entries) && (fewer_feeds(
                v,
                n,
            )->Some_0 matches JsonTree::Object(after) && after.len() == entries.len() && forall|
                i: int,
            |
                0 <= i < entries.len() ==> #[trigger] after[i] == (if entries[i].0 == "feeds"@ {
                    ("feeds"@, JsonTree::List(kept))
                } else {
                    entries[i]
                }))
        },
{
}

/// A search is narrowed by what the call names, each under its own name, and by nothing else.
pub proof fn law_searches_are_narrowed(args: JsonTree)
    ensures
        filters_of(args) == (match args.text_at("sort_by"@) {
            Some(v) => seq![("sort_by"@, v)],
            None => seq![],
        }) + (match args.text_at("note_type"@) {
            Some(v) => seq![("note_type"@, v)],
            None => seq![],
        }) + (match args.text_at("publish_time"@) {
            Some(v) => seq![("publish_time"@, v)],
            None => seq![],
        }),
{
}

/// Comments are read up to the number that is asked for, ten at most; ten where all are asked for, a
/// chance number where nothing is said, and none where they are not wanted.
pub proof fn law_comments_are_as_asked(limit: u64, chance: u64)
    ensures
        comment_limit(Some(false), Some(limit), chance) is None,
        comment_limit(Some(false), None, chance) is None,
        comment_limit(Some(true), None, chance) == Some(10u64),
        comment_limit(None, None, chance) == Some(chance),
        limit <= 10 ==> comment_limit(Some(true), Some(limit), chance) == Some(limit)
            && comment_limit(None, Some(limit), chance) == Some(limit),
        limit > 10 ==> comment_limit(Some(true), Some(limit), chance) == Some(10u64)
            && comment_limit(None, Some(limit), chance) == Some(10u64),
        LIKE_PROBABILITY_PCT == 5,
{
}

/// A note is told up to twenty-four thousand characters, with how liking it went, where it was tried.
pub proof fn law_notes_are_told(body: Seq<char>, e: Seq<char>)
    ensures
        note_text(body, None) == truncated(body, 24000),
        note_text(body, Some(Ok(()))) == truncated(body, 24000) + "\n\n（已顺手为该笔记点赞）"@,
        note_text(body, Some(Err(e))) == truncated(body, 24000)
            + "\n\n（顺手点赞未成功，不影响阅读："@ + e + "）"@,
{
}

proof fn lemma_caption(content: Seq<RpcContent>, from: int, i: int)
    requires
        0 <= from <= i <= content.len(),
        forall|j: int|
            from <= j < i ==> (#[trigger] content[j]).kind@ != "text"@ || content[j].text@.len() == 0,
        i < content.len() ==> content[i].kind@ == "text"@ && content[i].text@.len() > 0,
    ensures
        i < content.len() ==> caption_of(content, from) == Some(content[i].text@),
        i == content.len() ==> caption_of(content, from) is None,
    decreases i - from,
{
    if from < i {
        assert(content[from].kind@ != "text"@ || content[from].text@.len() == 0);
        lemma_caption(content, from + 1, i);
    }
}

/// The words to a login code are the first that the reply holds, and none where it holds none.
pub proof fn law_captions_are_the_first_words(content: Seq<RpcContent>, i: int)
    requires
        0 <= i <= content.len(),
        forall|j: int|
            0 <= j < i ==> (#[trigger] content[j]).kind@ != "text"@ || content[j].text@.len() == 0,
        i < content.len() ==> content[i].kind@ == "text"@ && content[i].text@.len() > 0,
    ensures
        i < content.len() ==> caption_of(content, 0) == Some(content[i].text@),
        i == content.len() ==> caption_of(content, 0) is None,
{
    lemma_caption(content, 0, i);
}

/// A picture's data that name their kind in front, as `data:`, the kind, and more up to a comma, are
/// what stands behind the comma, of that kind; other data are taken as they are, with the kind that is
/// given beside them.
pub proof fn law_pictures_have_their_kind(
    c: RpcContent,
    kind: Seq<char>,
    more: Seq<char>,
    data: Seq<char>,
)
    requires
        forall|i: int| 0 <= i < kind.len() ==> #[trigger] kind[i] != ',' && kind[i] != ';',
        forall|i: int| 0 <= i < more.len() ==> #[trigger] more[i] != ',' && more[i] != ';',
    ensures
        c.data@ == "data:"@ + kind + seq![';'] + more + seq![','] + data ==> picture_parts(c) == (
            kind,
            data,
        ),
        !c.data@.contains(',') ==> picture_parts(c) == (c.mime_type@, c.data@),
        !text::has_prefix(c.data@, "data:"@) ==> picture_parts(c) == (c.mime_type@, c.data@),
{
    let s = c.data@;
    reveal_strlit("data:");
    text::lemma_found_from(s, seq![','], 0);
    let front = "data:"@ + kind + seq![';'] + more;
    if s == front + seq![','] + data {
        let n = front.len() as int;
        assert(s.subrange(n, n + 1) =~= seq![',']);
        assert(text::occurs_at(s, seq![','], n));
        assert forall|j: int| 0 <= j < n implies s[j] != ',' by {
            assert(s[j] == front[j]);
            if 5 <= j < 5 + kind.len() {
                assert(front[j] == kind[j - 5]);
            } else if j > 5 + kind.len() {
                assert(front[j] == more[j - 6 - kind.len()]);
            }
        }
        match comma_in(s) {
            Some(i) => {
                assert(s.subrange(i, i + 1)[0] == s[i]);
                assert(i == n);
            },
            None => {},
        }
        assert(s.take(n) =~= "data:"@ + (kind + seq![';'] + more));
        text::law_prefixes_and_suffixes_come_off("data:"@, kind + seq![';'] + more);
        assert(s.skip(n + 1) =~= data);
        text::law_pieces_are_between_separators(kind, more, ';');
        text::law_pieces_are_between_separators(more, kind, ';');
        assert(kind + seq![';'] + more =~= kind.push(';') + more);
        assert(text::split_at_char(kind + seq![';'] + more, ';')[0] == kind);
    }
    match comma_in(s) {
        Some(i) => {
            assert(s.subrange(i, i + 1)[0] == s[i]);
            assert(s.contains(','));
            if text::has_prefix(s.take(i), "data:"@) {
                assert(s.take(i).take(5) =~= s.take(5));
            }
        },
        None => {},
    }
}

/// A login code that cannot be had is told with its reason.
pub proof fn law_missing_codes_are_told(raw: Seq<char>, reply: RpcReply, cause: String)
    ensures
        login_code(raw, Err(cause)) == Err::<XhsLoginQrModel, Seq<char>>(
            "解析小红书二维码响应失败："@ + truncated(raw, 300) + ": "@ + cause@,
        ),
        reply.error matches Some(message) ==> login_code(raw, Ok(reply)) == Err::<
            XhsLoginQrModel,
            Seq<char>,
        >("xiaohongshu-mcp 错误："@ + message@),
        reply.error is None && reply.result is None ==> login_code(raw, Ok(reply)) == Err::<
            XhsLoginQrModel,
            Seq<char>,
        >("二维码响应缺少 result"@),
        reply.error is None ==> (reply.result matches Some(result) ==> {
            &&& result.is_error ==> login_code(raw, Ok(reply)) == Err::<XhsLoginQrModel, Seq<char>>(
                "小红书二维码获取失败"@,
            )
            &&& !result.is_error ==> (match login_code(raw, Ok(reply)) {
                Ok(code) => {
                    &&& code.text == caption_of(result.content@, 0)
                    &&& exists|i: int|
                        0 <= i < result.content@.len() && (#[trigger] picture_parts(
                            result.content@[i],
                        )).1 == code.data && code.mime_type == (if picture_parts(
                            result.content@[i],
                        ).0.len() == 0 {
                            "image/png"@
                        } else {
                            picture_parts(result.content@[i]).0
                        })
                },
                Err(e) => e == "小红书响应中没有二维码图片"@,
            })
        }),
{
    match reply.result {
        Some(result) => {
            lemma_picture_at(result.content@, 0);
        },
        None => {},
    }
}

} // verus!
