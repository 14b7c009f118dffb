//! The quick tasks by name, and the tool that switches between them.

use vstd::prelude::*;

use crate::json;
use crate::json::JsonTree;
use crate::session::{QuickMode, WorkflowMode};
use crate::text;

verus! {

/// The name of a task in tool arguments and stored sessions.
pub open spec fn key(m: QuickMode) -> Seq<char> {
    match m {
        QuickMode::Auto => "auto"@,
        QuickMode::Inspiration => "inspiration"@,
        QuickMode::Schedule => "schedule"@,
        QuickMode::Mapping => "map"@,
        QuickMode::Xhs => "xhs"@,
        QuickMode::Ctrip => "ctrip"@,
        QuickMode::Knowledge => "knowledge"@,
    }
}

pub fn mode_key(m: QuickMode) -> (r: &'static str)
    ensures
        r@ == key(m),
{
    match m {
        QuickMode::Auto => "auto",
        QuickMode::Inspiration => "inspiration",
        QuickMode::Schedule => "schedule",
        QuickMode::Mapping => "map",
        QuickMode::Xhs => "xhs",
        QuickMode::Ctrip => "ctrip",
        QuickMode::Knowledge => "knowledge",
    }
}

/// The name of a task in messages about it.
pub open spec fn quick_name(m: QuickMode) -> Seq<char> {
    match m {
        QuickMode::Auto => "Auto"@,
        QuickMode::Inspiration => "Inspiration"@,
        QuickMode::Schedule => "Schedule"@,
        QuickMode::Mapping => "Map"@,
        QuickMode::Xhs => "Xhs"@,
        QuickMode::Ctrip => "Ctrip"@,
        QuickMode::Knowledge => "Knowledge"@,
    }
}

pub fn quick_debug_name(m: QuickMode) -> (r: &'static str)
    ensures
        r@ == quick_name(m),
{
    match m {
        QuickMode::Auto => "Auto",
        QuickMode::Inspiration => "Inspiration",
        QuickMode::Schedule => "Schedule",
        QuickMode::Mapping => "Map",
        QuickMode::Xhs => "Xhs",
        QuickMode::Ctrip => "Ctrip",
        QuickMode::Knowledge => "Knowledge",
    }
}

pub open spec fn workflow_name(m: WorkflowMode) -> Seq<char> {
    match m {
        WorkflowMode::Quick => "Quick"@,
        WorkflowMode::Full => "Full"@,
    }
}

pub fn workflow_debug_name(m: WorkflowMode) -> (r: &'static str)
    ensures
        r@ == workflow_name(m),
{
    match m {
        WorkflowMode::Quick => "Quick",
        WorkflowMode::Full => "Full",
    }
}

/// The task that the arguments of `set_mode` name, or what is wrong with them.
pub open spec fn parsed_mode(args: JsonTree) -> Result<QuickMode, Seq<char>> {
    match args.text_at("mode"@) {
        None => Err("set_mode 缺少 mode 参数"@),
        Some(raw) => if raw == "inspiration"@ {
            Ok(QuickMode::Inspiration)
        } else if raw == "schedule"@ {
            Ok(QuickMode::Schedule)
        } else if raw == "map"@ {
            Ok(QuickMode::Mapping)
        } else if raw == "xhs"@ {
            Ok(QuickMode::Xhs)
        } else if raw == "ctrip"@ {
            Ok(QuickMode::Ctrip)
        } else if raw == "knowledge"@ {
            Ok(QuickMode::Knowledge)
        } else if raw == "auto"@ || raw == "full"@ {
            Err("set_mode 不接受 "@ + raw + "，只能切换到实际快捷任务类型"@)
        } else {
            Err("set_mode 的 mode 无效："@ + raw)
        },
    }
}

/// What a result of text holds.
pub open spec fn result_text<T>(r: Result<T, String>) -> Result<T, Seq<char>> {
    match r {
        Ok(v) => Ok(v),
        Err(e) => Err(e@),
    }
}

pub fn parse_quick_mode(args: &serde_json::Value) -> (r: Result<QuickMode, String>)
    ensures
        result_text(r) == parsed_mode(json::json_tree(*args)),
{
    match json::text_at(args, "mode") {
        None => Err(text::copy_text("set_mode 缺少 mode 参数")),
        Some(raw) => {
            let raw = raw.as_str();
            if text::same(raw, "inspiration") {
                Ok(QuickMode::Inspiration)
            } else if text::same(raw, "schedule") {
                Ok(QuickMode::Schedule)
            } else if text::same(raw, "map") {
                Ok(QuickMode::Mapping)
            } else if text::same(raw, "xhs") {
                Ok(QuickMode::Xhs)
            } else if text::same(raw, "ctrip") {
                Ok(QuickMode::Ctrip)
            } else if text::same(raw, "knowledge") {
                Ok(QuickMode::Knowledge)
            } else if text::same(raw, "auto") || text::same(raw, "full") {
                let mut e = text::copy_text("set_mode 不接受 ");
                e.append(raw);
                e.append("，只能切换到实际快捷任务类型");
                Err(e)
            } else {
                let mut e = text::copy_text("set_mode 的 mode 无效：");
                e.append(raw);
                Err(e)
            }
        },
    }
}

/// Only tasks can be switched to, each by its name, and never the automatic choice.
pub proof fn law_every_task_has_a_name(m: QuickMode, args: JsonTree)
    ensures
        m != QuickMode::Auto && args.text_at("mode"@) == Some(key(m)) ==> parsed_mode(args)
            == Ok::<QuickMode, Seq<char>>(m),
        parsed_mode(args) matches Ok(n) ==> n != QuickMode::Auto && args.text_at("mode"@) == Some(
            key(n),
        ),
{
    reveal_strlit("inspiration");
    reveal_strlit("schedule");
    reveal_strlit("map");
    reveal_strlit("xhs");
    reveal_strlit("ctrip");
    reveal_strlit("knowledge");
    assert("inspiration"@.len() == 11 && "schedule"@.len() == 8 && "map"@.len() == 3);
    assert("xhs"@.len() == 3 && "ctrip"@.len() == 5 && "knowledge"@.len() == 9);
    assert("map"@[0] == 'm');
    assert("xhs"@[0] == 'x');
}

/// The tool that switches the quick task.
pub struct SetMode;

impl SetMode {
    /// The answer to a call.
    pub fn execute(&self, args: &serde_json::Value) -> (r: Result<String, String>)
        ensures
            match r {
                Ok(out) => parsed_mode(json::json_tree(*args)) is Ok && out@
                    == "已切换快捷任务类型为 "@ + key(parsed_mode(json::json_tree(*args))->Ok_0),
                Err(e) => parsed_mode(json::json_tree(*args)) == Err::<QuickMode, Seq<char>>(e@),
            },
    {
        match parse_quick_mode(args) {
            Ok(m) => {
                let mut out = text::copy_text("已切换快捷任务类型为 ");
                out.append(mode_key(m));
                Ok(out)
            },
            Err(e) => Err(e),
        }
    }
}

/// The tasks have the names that they are called by: a call that names one changes to it, and to no
/// other; a call that names the choice itself, the full workflow or anything else is refused.
pub proof fn law_tasks_are_called_by_name(args: JsonTree, raw: Seq<char>)
    requires
        args.text_at("mode"@) == Some(raw),
    ensures
        parsed_mode(args) == Ok::<QuickMode, Seq<char>>(QuickMode::Inspiration) <==> raw
            == "inspiration"@,
        parsed_mode(args) == Ok::<QuickMode, Seq<char>>(QuickMode::Schedule) <==> raw
            == "schedule"@,
        parsed_mode(args) == Ok::<QuickMode, Seq<char>>(QuickMode::Mapping) <==> raw == "map"@,
        parsed_mode(args) == Ok::<QuickMode, Seq<char>>(QuickMode::Xhs) <==> raw == "xhs"@,
        parsed_mode(args) == Ok::<QuickMode, Seq<char>>(QuickMode::Ctrip) <==> raw == "ctrip"@,
        parsed_mode(args) == Ok::<QuickMode, Seq<char>>(QuickMode::Knowledge) <==> raw
            == "knowledge"@,
        parsed_mode(args) != Ok::<QuickMode, Seq<char>>(QuickMode::Auto),
        raw == "auto"@ || raw == "full"@ ==> parsed_mode(args) == Err::<QuickMode, Seq<char>>(
            "set_mode 不接受 "@ + raw + "，只能切换到实际快捷任务类型"@,
        ),
        raw != "auto"@ && raw != "full"@ && parsed_mode(args) is Err ==> parsed_mode(args) == Err::<
            QuickMode,
            Seq<char>,
        >("set_mode 的 mode 无效："@ + raw),
{
    reveal_strlit("inspiration");
    reveal_strlit("schedule");
    reveal_strlit("map");
    reveal_strlit("xhs");
    reveal_strlit("ctrip");
    reveal_strlit("knowledge");
    reveal_strlit("auto");
    reveal_strlit("full");
    assert("inspiration"@.len() == 11 && "inspiration"@[0] == 'i');
    assert("schedule"@.len() == 8 && "schedule"@[0] == 's');
    assert("map"@.len() == 3 && "map"@[0] == 'm');
    assert("xhs"@.len() == 3 && "xhs"@[0] == 'x');
    assert("ctrip"@.len() == 5 && "ctrip"@[0] == 'c');
    assert("knowledge"@.len() == 9 && "knowledge"@[0] == 'k');
    assert("auto"@.len() == 4 && "auto"@[0] == 'a');
    assert("full"@.len() == 4 && "full"@[0] == 'f');
}

/// Messages call the tasks and the two ways of working by these names.
pub proof fn law_modes_have_their_names()
    ensures
        quick_name(QuickMode::Auto) == "Auto"@,
        quick_name(QuickMode::Inspiration) == "Inspiration"@,
        quick_name(QuickMode::Schedule) == "Schedule"@,
        quick_name(QuickMode::Mapping) == "Map"@,
        quick_name(QuickMode::Xhs) == "Xhs"@,
        quick_name(QuickMode::Ctrip) == "Ctrip"@,
        quick_name(QuickMode::Knowledge) == "Knowledge"@,
        workflow_name(WorkflowMode::Quick) == "Quick"@,
        workflow_name(WorkflowMode::Full) == "Full"@,
{
}

} // verus!
