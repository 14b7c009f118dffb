//! The system prompt: which documents it is made of in each mode and phase.

use vstd::prelude::*;

use crate::agent;
use crate::agent::Agent;
use crate::calendar;
use crate::clock;
use crate::llm;
use crate::llm::{ChatRequest, Message, Tool};
use crate::session::{QuickMode, Session, SessionModel, WorkflowMode};
use crate::text;

verus! {

// The documents that teach a skill, by the path under which they are kept.

pub const MAP_MD: &'static str = "skills/map.md";

pub const SPECIAL_MD: &'static str = "skills/special.md";

pub const HOTEL_MD: &'static str = "skills/hotel.md";

pub const DISCOVERY_MD: &'static str = "skills/discovery.md";

pub const XHS_MD: &'static str = "skills/xhs.md";

/// The texts that prompts are made of.
pub struct PromptDocs {
    pub system_core: String,
    /// One for each phase, 0 to 5.
    pub phases: Vec<String>,
    pub quick_core: String,
    /// One for each quick task.
    pub quick: Vec<String>,
    pub map: String,
    pub special: String,
    pub hotel: String,
    pub discovery: String,
    pub xhs: String,
}

impl PromptDocs {
    /// Whether there is a text for every phase and every task.
    pub open spec fn complete(self) -> bool {
        self.phases@.len() == 6 && self.quick@.len() == 7
    }

    /// The text of the document at a path.
    pub open spec fn skill(self, path: Seq<char>) -> Seq<char> {
        if path == MAP_MD@ {
            self.map@
        } else if path == SPECIAL_MD@ {
            self.special@
        } else if path == HOTEL_MD@ {
            self.hotel@
        } else if path == DISCOVERY_MD@ {
            self.discovery@
        } else {
            self.xhs@
        }
    }

    pub fn skill_text(&self, path: &str) -> (r: String)
        ensures
            r@ == self.skill(path@),
    {
        if text::same(path, MAP_MD) {
            text::copy_text(self.map.as_str())
        } else if text::same(path, SPECIAL_MD) {
            text::copy_text(self.special.as_str())
        } else if text::same(path, HOTEL_MD) {
            text::copy_text(self.hotel.as_str())
        } else if text::same(path, DISCOVERY_MD) {
            text::copy_text(self.discovery.as_str())
        } else {
            text::copy_text(self.xhs.as_str())
        }
    }
}

/// The skills of a phase, without the notes service's.
pub open spec fn phase_skills(phase: u8) -> Seq<Seq<char>> {
    if phase == 0 {
        seq![]
    } else if phase == 1 {
        seq![SPECIAL_MD@]
    } else if phase == 2 {
        seq![DISCOVERY_MD@, MAP_MD@]
    } else if phase == 3 {
        seq![DISCOVERY_MD@, MAP_MD@, SPECIAL_MD@, HOTEL_MD@]
    } else if phase == 4 {
        seq![HOTEL_MD@, DISCOVERY_MD@, SPECIAL_MD@]
    } else {
        seq![MAP_MD@, SPECIAL_MD@]
    }
}

/// The skills of a phase; from phase 1 on also the notes service's, where it is in use.
pub open spec fn skill_docs(phase: u8, xhs_enabled: bool) -> Seq<Seq<char>> {
    if xhs_enabled && phase >= 1 {
        phase_skills(phase).push(XHS_MD@)
    } else {
        phase_skills(phase)
    }
}

pub fn skill_docs_for(phase: u8, xhs_enabled: bool) -> (r: Vec<&'static str>)
    ensures
        agent::name_views(r@) == skill_docs(phase, xhs_enabled),
{
    let mut docs: Vec<&'static str> = if phase == 0 {
        Vec::new()
    } else if phase == 1 {
        vec![SPECIAL_MD]
    } else if phase == 2 {
        vec![DISCOVERY_MD, MAP_MD]
    } else if phase == 3 {
        vec![DISCOVERY_MD, MAP_MD, SPECIAL_MD, HOTEL_MD]
    } else if phase == 4 {
        vec![HOTEL_MD, DISCOVERY_MD, SPECIAL_MD]
    } else {
        vec![MAP_MD, SPECIAL_MD]
    };
    assert(agent::name_views(docs@) =~= phase_skills(phase));
    if xhs_enabled && phase >= 1 {
        let ghost before = docs@;
        docs.push(XHS_MD);
        assert(agent::name_views(docs@) =~= agent::name_views(before).push(XHS_MD@));
    }
    docs
}

/// What stands between the parts of a prompt.
pub open spec fn rule() -> Seq<char> {
    "\n\n---\n\n"@
}

pub open spec fn quick_index(m: QuickMode) -> int {
    match m {
        QuickMode::Auto => 0,
        QuickMode::Inspiration => 1,
        QuickMode::Schedule => 2,
        QuickMode::Mapping => 3,
        QuickMode::Xhs => 4,
        QuickMode::Ctrip => 5,
        QuickMode::Knowledge => 6,
    }
}

/// What the prompt says of the work at hand: the quick task's text alone in the quick workflow; in
/// the full one the general text, the phase's, and the skills'.
pub open spec fn task_text(s: SessionModel, xhs_enabled: bool, docs: PromptDocs) -> Seq<char> {
    if s.workflow_mode == WorkflowMode::Quick {
        docs.quick_core@ + rule() + docs.quick@[quick_index(s.quick_mode)]@
    } else {
        let idx = if s.phase <= 5 {
            s.phase as int
        } else {
            5
        };
        let full = docs.system_core@ + rule() + docs.phases@[idx]@;
        let skills = skill_docs(s.phase, xhs_enabled).map_values(|p: Seq<char>| docs.skill(p));
        if skills.len() == 0 {
            full
        } else {
            full + rule() + text::joined(skills, rule())
        }
    }
}

/// What is added where a quick task would like to use the notes service and cannot.
pub open spec fn missing_service_text(s: SessionModel, xhs_enabled: bool) -> Seq<char> {
    if s.workflow_mode == WorkflowMode::Quick && (s.quick_mode == QuickMode::Xhs || s.quick_mode
        == QuickMode::Inspiration) && !xhs_enabled {
        "\n\n---\n\n当前环境未启用小红书服务；不要调用小红书工具，须按快捷提示明确降级。\n"@
    } else {
        Seq::empty()
    }
}

pub open spec fn today_text(date: Seq<char>) -> Seq<char> {
    "\n\n---\n\n## 当前时间基准\n当前日期（北京时间）："@ + date
        + "。用户只写月日时，必须结合该日期推断最近的未来日期；不得擅自使用过去的年份。"@
}

/// The session's notes, where it has any.
pub open spec fn notes_text(notes: Option<Seq<char>>) -> Seq<char> {
    match notes {
        Some(n) => if text::trimmed(n).len() > 0 {
            "\n\n---\n\n# 会话记忆（当前已确认信息，经 update_notes 工具维护）\n\n"@ + n
        } else {
            Seq::empty()
        },
        None => Seq::empty(),
    }
}

pub open spec fn prompt(
    s: SessionModel,
    xhs_enabled: bool,
    docs: PromptDocs,
    date: Seq<char>,
    notes: Option<Seq<char>>,
) -> Seq<char> {
    task_text(s, xhs_enabled, docs) + missing_service_text(s, xhs_enabled) + today_text(date)
        + notes_text(notes)
}

fn skill_texts(docs: &PromptDocs, phase: u8, xhs_enabled: bool) -> (r: Vec<String>)
    ensures
        text::views(r@) == skill_docs(phase, xhs_enabled).map_values(|p: Seq<char>| docs.skill(p)),
{
    let paths = skill_docs_for(phase, xhs_enabled);
    let ghost all = skill_docs(phase, xhs_enabled).map_values(|p: Seq<char>| docs.skill(p));
    let mut r: Vec<String> = Vec::new();
    let mut i: usize = 0;
    while i < paths.len()
        invariant
            i <= paths@.len(),
            agent::name_views(paths@) == skill_docs(phase, xhs_enabled),
            all == skill_docs(phase, xhs_enabled).map_values(|p: Seq<char>| docs.skill(p)),
            text::views(r@) =~= all.take(i as int),
        decreases paths@.len() - i,
    {
        let path: &'static str = paths[i];
        let t = docs.skill_text(path);
        proof {
            assert(agent::name_views(paths@)[i as int] == path@);
            text::lemma_views_push(r@, t);
            assert(all.take(i + 1) =~= all.take(i as int).push(all[i as int]));
        }
        r.push(t);
        i = i + 1;
    }
    assert(all.take(all.len() as int) =~= all);
    r
}

impl Agent {
    /// The system prompt for a session, on a given date and with the session's notes.
    pub fn prompt_for(
        session: &Session,
        xhs_enabled: bool,
        docs: &PromptDocs,
        date: &str,
        notes: &Option<String>,
    ) -> (r: String)
        requires
            docs.complete(),
        ensures
            r@ == prompt(session@, xhs_enabled, *docs, date@, llm::opt_text(*notes)),
    {
        let mut p = String::new();
        if session.workflow_mode == WorkflowMode::Quick {
            let idx: usize = match session.quick_mode {
                QuickMode::Auto => 0,
                QuickMode::Inspiration => 1,
                QuickMode::Schedule => 2,
                QuickMode::Mapping => 3,
                QuickMode::Xhs => 4,
                QuickMode::Ctrip => 5,
                QuickMode::Knowledge => 6,
            };
            p.append(docs.quick_core.as_str());
            p.append("\n\n---\n\n");
            p.append(docs.quick[idx].as_str());
        } else {
            let idx: usize = if session.phase <= 5 {
                session.phase as usize
            } else {
                5
            };
            p.append(docs.system_core.as_str());
            p.append("\n\n---\n\n");
            p.append(docs.phases[idx].as_str());
            let skills = skill_texts(docs, session.phase, xhs_enabled);
            if skills.len() > 0 {
                p.append("\n\n---\n\n");
                p.append(text::join(&skills, "\n\n---\n\n").as_str());
            }
        }
        assert(p@ =~= task_text(session@, xhs_enabled, *docs));
        if session.workflow_mode == WorkflowMode::Quick && (session.quick_mode == QuickMode::Xhs
            || session.quick_mode == QuickMode::Inspiration) && !xhs_enabled {
            p.append(
                "\n\n---\n\n当前环境未启用小红书服务；不要调用小红书工具，须按快捷提示明确降级。\n",
            );
        }
        assert(p@ =~= task_text(session@, xhs_enabled, *docs) + missing_service_text(
            session@,
            xhs_enabled,
        ));
        let ghost before = p@;
        p.append("\n\n---\n\n## 当前时间基准\n当前日期（北京时间）：");
        p.append(date);
        p.append(
            "。用户只写月日时，必须结合该日期推断最近的未来日期；不得擅自使用过去的年份。",
        );
        assert(p@ =~= before + today_text(date@));
        match notes {
            Some(n) => {
                let bare = text::trim(n.as_str());
                if text::char_count(bare.as_str()) > 0 {
                    let ghost so_far = p@;
                    p.append(
                        "\n\n---\n\n# 会话记忆（当前已确认信息，经 update_notes 工具维护）\n\n",
                    );
                    p.append(n.as_str());
                    assert(p@ =~= so_far + notes_text(llm::opt_text(*notes)));
                }
            },
            None => {},
        }
        assert(p@ =~= prompt(session@, xhs_enabled, *docs, date@, llm::opt_text(*notes)));
        p
    }
}

/// The prompt of the quick workflow does not depend on the phase, nor on the documents of the full
/// workflow; that of the full workflow does not depend on the quick task.
pub proof fn law_workflows_do_not_mix(
    s: SessionModel,
    phase: u8,
    quick: QuickMode,
    xhs_enabled: bool,
    docs: PromptDocs,
    other: PromptDocs,
    date: Seq<char>,
    notes: Option<Seq<char>>,
)
    requires
        other.quick_core@ == docs.quick_core@,
        other.quick@ == docs.quick@,
    ensures
        s.workflow_mode == WorkflowMode::Quick ==> prompt(
            SessionModel { phase, ..s },
            xhs_enabled,
            other,
            date,
            notes,
        ) == prompt(s, xhs_enabled, docs, date, notes),
        s.workflow_mode == WorkflowMode::Full ==> prompt(
            SessionModel { quick_mode: quick, ..s },
            xhs_enabled,
            docs,
            date,
            notes,
        ) == prompt(s, xhs_enabled, docs, date, notes),
{
}

// ---- Today ----

/// The day in Beijing, eight hours ahead, at a number of seconds since the start of 1970.
pub open spec fn beijing_day(secs: int) -> int {
    (secs + 8 * 3600) / 86400
}

/// The day in Beijing. Times that the count of seconds cannot hold with the eight hours added
/// count as the last that it can.
pub fn beijing_day_at(secs: u64) -> (n: i64)
    ensures
        secs <= u64::MAX - 8 * 3600 ==> n == beijing_day(secs as int),
        0 <= n <= 300_000_000_000_000,
{
    let local: u64 = secs.saturating_add(8 * 3600);
    (local / 86400) as i64
}

/// The date in Beijing at a given time.
pub fn beijing_date_at(secs: u64) -> (r: String)
    requires
        secs <= u64::MAX - 8 * 3600,
    ensures
        r@ == calendar::day_text(beijing_day(secs as int)),
{
    calendar::days_to_date(beijing_day_at(secs))
}

/// Today's date in Beijing.
pub fn current_beijing_date() -> (r: String)
    ensures
        exists|n: int| r@ == #[trigger] calendar::day_text(n) && n >= 0,
{
    let n = beijing_day_at(clock::now().secs);
    let r = calendar::days_to_date(n);
    assert(r@ == calendar::day_text(n as int));
    r
}

// ---- Requests ----

impl Agent {
    /// The messages of a request: the system prompt, the session's messages, and those that the
    /// reply so far has added.
    pub fn request_messages(prompt: String, session: &Session, extra: &Vec<Message>) -> (r: Vec<
        Message,
    >)
        ensures
            llm::message_models(r@) == seq![llm::plain_message("system"@, prompt@)]
                + session@.messages + llm::message_models(extra@),
    {
        let mut r: Vec<Message> = Vec::new();
        let system = Message::plain("system", prompt);
        r.push(system);
        let mut said = llm::copy_messages(&session.messages);
        let mut more = llm::copy_messages(extra);
        r.append(&mut said);
        r.append(&mut more);
        assert(llm::message_models(r@) =~= seq![llm::plain_message("system"@, prompt@)]
            + session@.messages + llm::message_models(extra@));
        r
    }

    /// The request for the next reply.
    pub fn request(
        &self,
        prompt: String,
        session: &Session,
        extra: &Vec<Message>,
        registered: &Vec<Tool>,
    ) -> (r: ChatRequest)
        ensures
            r.model@ == self.model@,
            llm::message_models(r.messages@) == seq![llm::plain_message("system"@, prompt@)]
                + session@.messages + llm::message_models(extra@),
            agent::tool_models(r.tools@) == agent::visible_tools(
                session@,
                agent::tool_models(registered@),
            ),
            r.temperature == Some(self.temperature),
            r.max_tokens == Some(self.max_tokens),
            r.stream is None,
            r.stream_options is None,
            r.reasoning_effort is None,
    {
        ChatRequest {
            model: text::copy_text(self.model.as_str()),
            messages: Agent::request_messages(prompt, session, extra),
            tools: Agent::llm_tools_for(session, registered),
            temperature: Some(self.temperature),
            max_tokens: Some(self.max_tokens),
            stream: None,
            stream_options: None,
            reasoning_effort: None,
        }
    }
}

// ---- What a prompt is made of ----

/// The documents of a phase: none for the first; packing in the second; the search for places and the
/// maps in the third; both with the rest and the hotels in the fourth; hotels, places and the rest in
/// the fifth; maps and the rest from then on. The notes of travellers come last, from the second phase
/// on, where their service is there.
pub proof fn law_phases_have_their_documents(phase: u8, xhs_enabled: bool)
    ensures
        ({
            let own: Seq<Seq<char>> = if phase == 0 {
                seq![]
            } else if phase == 1 {
                seq!["skills/special.md"@]
            } else if phase == 2 {
                seq!["skills/discovery.md"@, "skills/map.md"@]
            } else if phase == 3 {
                seq![
                    "skills/discovery.md"@,
                    "skills/map.md"@,
                    "skills/special.md"@,
                    "skills/hotel.md"@,
                ]
            } else if phase == 4 {
                seq!["skills/hotel.md"@, "skills/discovery.md"@, "skills/special.md"@]
            } else {
                seq!["skills/map.md"@, "skills/special.md"@]
            };
            &&& phase >= 1 && xhs_enabled ==> skill_docs(phase, xhs_enabled) == own.push(
                "skills/xhs.md"@,
            )
            &&& phase == 0 || !xhs_enabled ==> skill_docs(phase, xhs_enabled) == own
        }),
{
}

/// Each document is the text of its own file.
pub proof fn law_documents_are_their_files(docs: PromptDocs)
    ensures
        docs.skill("skills/map.md"@) == docs.map@,
        docs.skill("skills/special.md"@) == docs.special@,
        docs.skill("skills/hotel.md"@) == docs.hotel@,
        docs.skill("skills/discovery.md"@) == docs.discovery@,
        docs.skill("skills/xhs.md"@) == docs.xhs@,
{
    reveal_strlit("skills/map.md");
    reveal_strlit("skills/special.md");
    reveal_strlit("skills/hotel.md");
    reveal_strlit("skills/discovery.md");
    reveal_strlit("skills/xhs.md");
    assert("skills/map.md"@.len() == 13 && "skills/map.md"@[7] == 'm');
    assert("skills/special.md"@.len() == 17 && "skills/special.md"@[7] == 's');
    assert("skills/hotel.md"@.len() == 15 && "skills/hotel.md"@[7] == 'h');
    assert("skills/discovery.md"@.len() == 19 && "skills/discovery.md"@[7] == 'd');
    assert("skills/xhs.md"@.len() == 13 && "skills/xhs.md"@[7] == 'x');
}

/// In the full workflow the prompt is the general part, then the text of the phase, that of the last
/// for any beyond it, and then the documents of the phase; in the quick workflow the quick part and the
/// text of the task. A rule stands between each two.
pub proof fn law_prompts_are_put_together(s: SessionModel, xhs_enabled: bool, docs: PromptDocs)
    ensures
        s.workflow_mode == WorkflowMode::Quick ==> task_text(s, xhs_enabled, docs)
            == docs.quick_core@ + "\n\n---\n\n"@ + (match s.quick_mode {
            QuickMode::Auto => docs.quick@[0]@,
            QuickMode::Inspiration => docs.quick@[1]@,
            QuickMode::Schedule => docs.quick@[2]@,
            QuickMode::Mapping => docs.quick@[3]@,
            QuickMode::Xhs => docs.quick@[4]@,
            QuickMode::Ctrip => docs.quick@[5]@,
            QuickMode::Knowledge => docs.quick@[6]@,
        }),
        s.workflow_mode == WorkflowMode::Full ==> {
            let phase = if s.phase < 5 {
                s.phase as int
            } else {
                5
            };
            let own = docs.system_core@ + "\n\n---\n\n"@ + docs.phases@[phase]@;
            let files = skill_docs(s.phase, xhs_enabled);
            let texts = Seq::new(files.len(), |i: int| docs.skill(files[i]));
            task_text(s, xhs_enabled, docs) == (if files.len() == 0 {
                own
            } else {
                own + "\n\n---\n\n"@ + text::joined(texts, "\n\n---\n\n"@)
            })
        },
{
    let files = skill_docs(s.phase, xhs_enabled);
    let texts = Seq::new(files.len(), |i: int| docs.skill(files[i]));
    assert(files.map_values(|p: Seq<char>| docs.skill(p)) =~= texts);
}

/// Behind these a prompt says where the notes of travellers are wanted and not to be had, what day it
/// is, and at last what the session has noted, unless that is blank.
pub proof fn law_prompts_end_with_the_notes(
    s: SessionModel,
    xhs_enabled: bool,
    docs: PromptDocs,
    date: Seq<char>,
    notes: Option<Seq<char>>,
)
    ensures
        ({
            let missing = s.workflow_mode == WorkflowMode::Quick && !xhs_enabled && (s.quick_mode
                == QuickMode::Xhs || s.quick_mode == QuickMode::Inspiration);
            let blank = match notes {
                Some(n) => text::trimmed(n).len() == 0,
                None => true,
            };
            let day = "\n\n---\n\n## 当前时间基准\n当前日期（北京时间）："@ + date
                + "。用户只写月日时，必须结合该日期推断最近的未来日期；不得擅自使用过去的年份。"@;
            prompt(s, xhs_enabled, docs, date, notes) == task_text(s, xhs_enabled, docs) + (
            if missing {
                "\n\n---\n\n当前环境未启用小红书服务；不要调用小红书工具，须按快捷提示明确降级。\n"@
            } else {
                Seq::empty()
            }) + day + (if blank {
                Seq::empty()
            } else {
                "\n\n---\n\n# 会话记忆（当前已确认信息，经 update_notes 工具维护）\n\n"@ + notes->Some_0
            })
        }),
{
}

/// A day in Beijing begins eight hours before that of the clock.
pub proof fn law_beijing_is_eight_hours_ahead(day: int, secs: int)
    requires
        0 <= secs < 86400,
    ensures
        secs < 57600 ==> beijing_day(86400 * day + secs) == day,
        secs >= 57600 ==> beijing_day(86400 * day + secs) == day + 1,
{
}

} // verus!
