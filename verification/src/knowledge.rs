//! The entry to the knowledge base. Writing to it is planned and not there yet.

use vstd::prelude::*;

use crate::hotel;
use crate::json;
use crate::json::JsonTree;
use crate::text;

verus! {

/// The kinds of knowledge.
pub open spec fn kinds() -> Seq<Seq<char>> {
    seq!["location"@, "guide"@, "hotel"@]
}

pub struct KnowledgeHub;

/// What a call is answered. Nothing is written in any case.
pub open spec fn hub_answer(args: JsonTree) -> Result<Seq<char>, Seq<char>> {
    match args.text_at("kind"@) {
        None => Err("update_knowledge 缺少 kind 参数"@),
        Some(kind) => if !kinds().contains(kind) {
            Ok(
                "知识库类型「"@ + kind
                    + "」无效，可用：location / guide / hotel。本次内容未落库。"@,
            )
        } else {
            match args.text_at("province"@) {
                None => Err("update_knowledge 缺少 province 参数"@),
                Some(province) => if text::trimmed(args.text_or("content"@, Seq::empty())).len()
                    == 0 {
                    Ok("content 为空，本次内容未落库。"@)
                } else {
                    Ok(
                        "知识库枢纽接口已预留，"@ + kind + "/"@ + province
                            + " 写入功能规划中（见 README 待做项「知识库」）。本次内容未落库；请继续用 update_notes 记录到会话记忆，不影响当前规划。"@,
                    )
                },
            }
        },
    }
}

impl KnowledgeHub {
    /// The answer to a call.
    pub fn execute(&self, args: &serde_json::Value) -> (r: Result<String, String>)
        ensures
            hotel::texts_of(r) == hub_answer(json::json_tree(*args)),
    {
        let kind = match json::text_at(args, "kind") {
            Some(s) => s,
            None => return Err(text::copy_text("update_knowledge 缺少 kind 参数")),
        };
        let known = text::same(kind.as_str(), "location") || text::same(kind.as_str(), "guide")
            || text::same(kind.as_str(), "hotel");
        proof {
            let k = kinds();
            assert(k[0] == "location"@ && k[1] == "guide"@ && k[2] == "hotel"@);
        }
        if !known {
            let mut s = text::copy_text("知识库类型「");
            s.append(kind.as_str());
            s.append("」无效，可用：location / guide / hotel。本次内容未落库。");
            return Ok(s);
        }
        let province = match json::text_at(args, "province") {
            Some(s) => s,
            None => return Err(text::copy_text("update_knowledge 缺少 province 参数")),
        };
        proof {
            reveal_strlit("");
            assert(""@ =~= Seq::<char>::empty());
        }
        let content = json::text_or(args, "content", "");
        let bare = text::trim(content.as_str());
        if text::char_count(bare.as_str()) == 0 {
            return Ok(text::copy_text("content 为空，本次内容未落库。"));
        }
        let mut s = text::copy_text("知识库枢纽接口已预留，");
        s.append(kind.as_str());
        s.append("/");
        s.append(province.as_str());
        s.append(
            " 写入功能规划中（见 README 待做项「知识库」）。本次内容未落库；请继续用 update_notes 记录到会话记忆，不影响当前规划。",
        );
        Ok(s)
    }
}

/// Knowledge has one of three kinds; a call needs a kind and a province, is told back another kind or
/// empty content, and nothing is stored in any case.
pub proof fn law_knowledge_is_not_stored_yet(args: JsonTree)
    ensures
        args.text_at("kind"@) is None ==> hub_answer(args) == Err::<Seq<char>, Seq<char>>(
            "update_knowledge 缺少 kind 参数"@,
        ),
        args.text_at("kind"@) matches Some(kind) ==> {
            let known = kind == "location"@ || kind == "guide"@ || kind == "hotel"@;
            let blank = match args.text_at("content"@) {
                Some(c) => text::trimmed(c).len() == 0,
                None => true,
            };
            &&& !known ==> hub_answer(args) == Ok::<Seq<char>, Seq<char>>(
                "知识库类型「"@ + kind + "」无效，可用：location / guide / hotel。本次内容未落库。"@,
            )
            &&& known && args.text_at("province"@) is None ==> hub_answer(args) == Err::<
                Seq<char>,
                Seq<char>,
            >("update_knowledge 缺少 province 参数"@)
            &&& known && args.text_at("province"@) is Some && blank ==> hub_answer(args) == Ok::<
                Seq<char>,
                Seq<char>,
            >("content 为空，本次内容未落库。"@)
            &&& known && args.text_at("province"@) is Some && !blank ==> hub_answer(args) == Ok::<
                Seq<char>,
                Seq<char>,
            >(
                "知识库枢纽接口已预留，"@ + kind + "/"@ + args.text_at("province"@)->Some_0
                    + " 写入功能规划中（见 README 待做项「知识库」）。本次内容未落库；请继续用 update_notes 记录到会话记忆，不影响当前规划。"@,
            )
        },
{
    assert(kinds()[0] == "location"@ && kinds()[1] == "guide"@ && kinds()[2] == "hotel"@);
    match args.text_at("kind"@) {
        Some(kind) => {
            if kinds().contains(kind) {
                let i = choose|i: int| 0 <= i < kinds().len() && kinds()[i] == kind;
                assert(0 <= i < 3);
            }
        },
        None => {},
    }
    assert(text::trimmed(Seq::empty()).len() == 0);
}

} // verus!
