//! The phases of the full workflow, and the tool that reports them.

use vstd::prelude::*;

use crate::json;
use crate::text;

verus! {

/// The short name of a phase; every phase beyond the last has the last one's.
pub open spec fn phase_title(phase: u8) -> Seq<char> {
    if phase == 0 {
        "阶段0·种草闲聊"@
    } else if phase == 1 {
        "阶段1·信息采集"@
    } else if phase == 2 {
        "阶段2·大局规划"@
    } else if phase == 3 {
        "阶段3·逐part确定"@
    } else if phase == 4 {
        "阶段4·整体调整"@
    } else {
        "阶段5·完整攻略"@
    }
}

pub fn phase_name(phase: u8) -> (r: String)
    ensures
        r@ == phase_title(phase),
{
    let name: &'static str = if phase == 0 {
        "阶段0·种草闲聊"
    } else if phase == 1 {
        "阶段1·信息采集"
    } else if phase == 2 {
        "阶段2·大局规划"
    } else if phase == 3 {
        "阶段3·逐part确定"
    } else if phase == 4 {
        "阶段4·整体调整"
    } else {
        "阶段5·完整攻略"
    };
    text::copy_text(name)
}

/// The tool that reports the phase that has been entered.
pub struct SetPhase;

impl SetPhase {
    /// The answer to a call.
    pub fn execute(&self, args: &serde_json::Value) -> (r: String)
        ensures
            r@ == "已记录进入阶段 "@ + text::dec(
                match json::json_tree(*args).unsigned_at("phase"@) {
                    Some(n) => n as nat,
                    None => 0,
                },
            ),
    {
        let phase: u64 = match json::unsigned_at(args, "phase") {
            Some(n) => n,
            None => 0,
        };
        let mut r = text::copy_text("已记录进入阶段 ");
        r.append(text::number(phase).as_str());
        r
    }
}

/// Each stage has its title; every number from five on stands for the last stage.
pub proof fn law_stages_have_titles(phase: u8)
    ensures
        phase_title(0) == "阶段0·种草闲聊"@,
        phase_title(1) == "阶段1·信息采集"@,
        phase_title(2) == "阶段2·大局规划"@,
        phase_title(3) == "阶段3·逐part确定"@,
        phase_title(4) == "阶段4·整体调整"@,
        phase >= 5 ==> phase_title(phase) == "阶段5·完整攻略"@,
{
}

} // verus!
