//! Web searches: the request, and the results in words.

use vstd::prelude::*;

use crate::json;
use crate::llm;
use crate::text;

verus! {

/// A search as it is asked for.
pub struct ExaRequest {
    pub query: String,
    pub kind: String,
    pub num_results: usize,
    pub highlights: bool,
}

/// One result.
pub struct ExaResult {
    pub title: Option<String>,
    pub url: Option<String>,
    pub highlights: Option<Vec<String>>,
}

/// The request for a call: five results with highlights.
pub fn request(args: &serde_json::Value) -> (r: Result<ExaRequest, String>)
    ensures
        match r {
            Ok(q) => {
                &&& json::json_tree(*args).text_at("query"@) == Some(q.query@)
                &&& q.kind@ == "auto"@
                &&& q.num_results == 5
                &&& q.highlights
            },
            Err(e) => json::json_tree(*args).text_at("query"@) is None && e@
                == "search_web 缺少 query 参数"@,
        },
{
    match json::text_at(args, "query") {
        Some(query) => Ok(
            ExaRequest { query, kind: text::copy_text("auto"), num_results: 5, highlights: true },
        ),
        None => Err(text::copy_text("search_web 缺少 query 参数")),
    }
}

/// What is answered where the service refused; `status` is its status in words.
pub fn refused(status: &str, body: &str) -> (r: String)
    ensures
        r@ == "搜索失败（"@ + status@ + "）: "@ + body@,
{
    let mut s = text::copy_text("搜索失败（");
    s.append(status);
    s.append("）: ");
    s.append(body);
    s
}

pub open spec fn highlight_lines(hs: Seq<Seq<char>>) -> Seq<char>
    decreases hs.len(),
{
    if hs.len() == 0 {
        Seq::empty()
    } else {
        highlight_lines(hs.drop_last()) + "   "@ + hs.last() + "\n"@
    }
}

/// One result in words.
pub open spec fn result_text(n: nat, r: ExaResult) -> Seq<char> {
    text::dec(n) + ". "@ + (match r.title {
        Some(t) => t@,
        None => "无标题"@,
    }) + "\n"@ + (match r.url {
        Some(u) => "   链接: "@ + u@ + "\n"@,
        None => Seq::empty(),
    }) + (match r.highlights {
        Some(hs) => highlight_lines(text::views(hs@)),
        None => Seq::empty(),
    }) + "\n"@
}

pub open spec fn result_texts(results: Seq<ExaResult>) -> Seq<char>
    decreases results.len(),
{
    if results.len() == 0 {
        Seq::empty()
    } else {
        result_texts(results.drop_last()) + result_text(results.len(), results.last())
    }
}

/// The results of a search in words.
pub open spec fn report_text(query: Seq<char>, results: Seq<ExaResult>) -> Seq<char> {
    if results.len() == 0 {
        "搜索「"@ + query + "」未找到结果。"@
    } else {
        "搜索「"@ + query + "」找到 "@ + text::dec(results.len()) + " 条结果：\n\n"@ + result_texts(
            results,
        )
    }
}

fn highlights_text(hs: &Vec<String>) -> (s: String)
    ensures
        s@ == highlight_lines(text::views(hs@)),
{
    let ghost all = text::views(hs@);
    let mut s = String::new();
    let mut i: usize = 0;
    assert(s@ =~= highlight_lines(all.take(0)));
    while i < hs.len()
        invariant
            i <= hs@.len(),
            all == text::views(hs@),
            s@ == highlight_lines(all.take(i as int)),
        decreases hs@.len() - i,
    {
        s.append("   ");
        s.append(hs[i].as_str());
        s.append("\n");
        proof {
            assert(all.take(i + 1).drop_last() =~= all.take(i as int));
            assert(all.take(i + 1).last() == hs@[i as int]@);
        }
        i = i + 1;
    }
    assert(all.take(all.len() as int) =~= all);
    s
}

fn url_text(url: &Option<String>) -> (s: String)
    ensures
        s@ == (match llm::opt_text(*url) {
            Some(u) => "   链接: "@ + u + "\n"@,
            None => Seq::empty(),
        }),
{
    match url {
        Some(u) => {
            let mut s = text::copy_text("   链接: ");
            s.append(u.as_str());
            s.append("\n");
            s
        },
        None => String::new(),
    }
}

fn text_of_result(n: usize, r: &ExaResult) -> (s: String)
    ensures
        s@ == result_text(n as nat, *r),
{
    let mut s = text::number(n as u64);
    s.append(". ");
    match &r.title {
        Some(t) => s.append(t.as_str()),
        None => s.append("无标题"),
    }
    s.append("\n");
    s.append(url_text(&r.url).as_str());
    let hs = match &r.highlights {
        Some(hs) => highlights_text(hs),
        None => String::new(),
    };
    s.append(hs.as_str());
    s.append("\n");
    s
}

/// The results of a search in words.
pub fn report(query: &str, results: &Vec<ExaResult>) -> (r: String)
    ensures
        r@ == report_text(query@, results@),
{
    let mut s = text::copy_text("搜索「");
    s.append(query);
    if results.len() == 0 {
        s.append("」未找到结果。");
        return s;
    }
    s.append("」找到 ");
    s.append(text::number(results.len() as u64).as_str());
    s.append(" 条结果：\n\n");
    let mut body = String::new();
    let mut i: usize = 0;
    assert(body@ =~= result_texts(results@.take(0)));
    while i < results.len()
        invariant
            i <= results@.len(),
            body@ == result_texts(results@.take(i as int)),
        decreases results@.len() - i,
    {
        body.append(text_of_result(i + 1, &results[i]).as_str());
        proof {
            assert(results@.take(i + 1).drop_last() =~= results@.take(i as int));
            assert(results@.take(i + 1).last() == results@[i as int]);
        }
        i = i + 1;
    }
    assert(results@.take(results@.len() as int) =~= results@);
    s.append(body.as_str());
    s
}

/// The results of a search are told with their number, title, link and highlights, each highlight on
/// its own line, and how many there are.
pub proof fn law_results_are_told(
    query: Seq<char>,
    results: Seq<ExaResult>,
    r: ExaResult,
    hs: Seq<Seq<char>>,
    h: Seq<char>,
)
    ensures
        report_text(query, Seq::empty()) == "搜索「"@ + query + "」未找到结果。"@,
        results.len() > 0 ==> report_text(query, results) == "搜索「"@ + query + "」找到 "@ + text::dec(
            results.len(),
        ) + " 条结果：\n\n"@ + result_texts(results),
        result_texts(Seq::empty()).len() == 0,
        result_texts(results.push(r)) == result_texts(results) + (text::dec(
            (results.len() + 1) as nat,
        ) + ". "@ + (match r.title {
            Some(t) => t@,
            None => "无标题"@,
        }) + "\n"@ + (match r.url {
            Some(u) => "   链接: "@ + u@ + "\n"@,
            None => Seq::empty(),
        }) + (match r.highlights {
            Some(v) => highlight_lines(text::views(v@)),
            None => Seq::empty(),
        }) + "\n"@),
        highlight_lines(Seq::empty()).len() == 0,
        highlight_lines(hs.push(h)) == highlight_lines(hs) + "   "@ + h + "\n"@,
{
    assert(results.push(r).drop_last() =~= results);
    assert(hs.push(h).drop_last() =~= hs);
}

} // verus!
