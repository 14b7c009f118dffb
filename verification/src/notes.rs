//! A session's notes, and the tool that rewrites them.

use vstd::prelude::*;

use crate::json;
use crate::json::JsonTree;
use crate::text;

verus! {

/// How many lines notes may have.
pub const MAX_LINES: usize = 60;

/// The tool that rewrites the notes of a session.
pub struct UpdateNotes {
    pub session_id: String,
}

/// What a call comes to.
pub enum NotesPlan {
    /// The notes are to be replaced; then this is answered.
    Save { content: String, reply: String },
    /// Nothing is written, and this is answered.
    Reject(String),
    /// The argument is missing.
    Fail(String),
}

pub enum NotesPlanModel {
    Save { content: Seq<char>, reply: Seq<char> },
    Reject(Seq<char>),
    Fail(Seq<char>),
}

impl View for NotesPlan {
    type V = NotesPlanModel;

    open spec fn view(&self) -> NotesPlanModel {
        match *self {
            NotesPlan::Save { content, reply } => NotesPlanModel::Save {
                content: content@,
                reply: reply@,
            },
            NotesPlan::Reject(s) => NotesPlanModel::Reject(s@),
            NotesPlan::Fail(s) => NotesPlanModel::Fail(s@),
        }
    }
}

/// What a call comes to: notes of nothing but white space are cleared, notes with too many lines are
/// turned down, all others replace the old ones.
pub open spec fn notes_plan(args: JsonTree) -> NotesPlanModel {
    match args.text_at("content"@) {
        None => NotesPlanModel::Fail("update_notes 缺少 content 参数"@),
        Some(content) => {
            let lines = text::lines_of(content).len();
            if text::trimmed(content).len() == 0 {
                NotesPlanModel::Save { content: Seq::empty(), reply: "已清空会话记忆"@ }
            } else if lines > MAX_LINES {
                NotesPlanModel::Reject(
                    "写入失败：笔记共 "@ + text::dec(lines)
                        + " 行，超过上限 60 行。请精简后重写：只保留用户已确认的关键事实，删除过程细节。"@,
                )
            } else {
                NotesPlanModel::Save {
                    content,
                    reply: "已更新会话记忆（"@ + text::dec(lines) + " 行），下一轮起生效"@,
                }
            }
        },
    }
}

impl UpdateNotes {
    pub fn new(session_id: String) -> (t: UpdateNotes)
        ensures
            t.session_id == session_id,
    {
        UpdateNotes { session_id }
    }

    /// What a call comes to.
    pub fn plan(&self, args: &serde_json::Value) -> (r: NotesPlan)
        ensures
            r@ == notes_plan(json::json_tree(*args)),
    {
        let content = match json::text_at(args, "content") {
            Some(s) => s,
            None => return NotesPlan::Fail(text::copy_text("update_notes 缺少 content 参数")),
        };
        let bare = text::trim(content.as_str());
        if text::char_count(bare.as_str()) == 0 {
            let r = NotesPlan::Save {
                content: String::new(),
                reply: text::copy_text("已清空会话记忆"),
            };
            assert(r@->content =~= Seq::<char>::empty());
            return r;
        }
        let all = text::lines(content.as_str());
        assert(text::views(all@).len() == all@.len());
        let lines = all.len();
        if lines > MAX_LINES {
            let mut s = text::copy_text("写入失败：笔记共 ");
            s.append(text::number(lines as u64).as_str());
            s.append(
                " 行，超过上限 60 行。请精简后重写：只保留用户已确认的关键事实，删除过程细节。",
            );
            return NotesPlan::Reject(s);
        }
        let mut reply = text::copy_text("已更新会话记忆（");
        reply.append(text::number(lines as u64).as_str());
        reply.append(" 行），下一轮起生效");
        NotesPlan::Save { content, reply }
    }
}

/// Notes that are written never have more lines than allowed.
pub proof fn law_notes_stay_short(args: JsonTree)
    ensures
        notes_plan(args) matches NotesPlanModel::Save { content, reply } ==> text::lines_of(
            content,
        ).len() <= MAX_LINES,
{
}

/// Notes of at most sixty lines are kept as they are; blank ones clear the memory, and longer ones are
/// refused, so that what was kept before stays.
pub proof fn law_notes_are_kept_cleared_or_refused(args: JsonTree)
    ensures
        args.text_at("content"@) is None ==> notes_plan(args) == NotesPlanModel::Fail(
            "update_notes 缺少 content 参数"@,
        ),
        args.text_at("content"@) matches Some(content) ==> {
            let blank = text::trimmed(content).len() == 0;
            let lines = text::lines_of(content).len();
            &&& blank ==> (notes_plan(args) matches NotesPlanModel::Save { content: kept, reply }
                && kept.len() == 0 && reply == "已清空会话记忆"@)
            &&& !blank && lines <= 60 ==> (notes_plan(args) matches NotesPlanModel::Save {
                content: kept,
                reply,
            } && kept == content && reply == "已更新会话记忆（"@ + text::dec(lines)
                + " 行），下一轮起生效"@)
            &&& !blank && lines > 60 ==> notes_plan(args) == NotesPlanModel::Reject(
                "写入失败：笔记共 "@ + text::dec(lines)
                    + " 行，超过上限 60 行。请精简后重写：只保留用户已确认的关键事实，删除过程细节。"@,
            )
        },
{
}

} // verus!
