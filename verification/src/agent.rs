//! What the agent lets the model see and do: titles, prompts, the tools of each mode, and the
//! routing of tool calls.

use vstd::prelude::*;

use crate::json;
use crate::llm;
use crate::llm::{Message, Tool, ToolCall, ToolFunction, Usage};
use crate::mode;
use crate::session::{QuickMode, Session, SessionModel, WorkflowMode};
use crate::text;
use crate::text::CharClass;
use crate::turn;

verus! {

/// What the agent tells a front end.
pub enum AgentEvent {
    Step { n: u32 },
    Content(String),
    Reasoning(String),
    ToolCall { name: String, args: String },
    ToolResult(String),
    PhaseChange { phase: u8 },
    Done(String),
    Usage(Usage),
    Error(String),
}

/// How an event is printed, and whether it is printed where errors are.
pub open spec fn printed_text(ev: AgentEvent) -> (Seq<char>, bool) {
    match ev {
        AgentEvent::Step { n } => ("\n— LLM 调用 #"@ + text::dec(n as nat) + "（流式）—\n"@, false),
        AgentEvent::Content(s) => (s@, false),
        AgentEvent::Reasoning(s) => ("\x1b[2m"@ + s@ + "\x1b[0m"@, true),
        AgentEvent::ToolCall { name, args } => (
            "  → 执行工具 "@ + name@ + " ("@ + args@ + ")\n"@,
            false,
        ),
        AgentEvent::ToolResult(r) => ("  ← "@ + r@ + "\n"@, false),
        AgentEvent::PhaseChange { phase } => (
            "  [进入阶段 "@ + text::dec(phase as nat) + "]\n"@,
            false,
        ),
        AgentEvent::Done(r) => ("\n[完成] "@ + r@ + "\n"@, false),
        AgentEvent::Usage(u) => (
            "  [tokens in·out·total="@ + text::dec(u.prompt_tokens as nat) + "·"@ + text::dec(
                u.completion_tokens as nat,
            ) + "·"@ + text::dec(u.total_tokens as nat) + "]\n"@,
            false,
        ),
        AgentEvent::Error(e) => ("\n[错误] "@ + e@ + "\n"@, false),
    }
}

fn wrapped(head: &str, s: &str, tail: &str) -> (r: String)
    ensures
        r@ == head@ + s@ + tail@,
{
    let mut r = text::copy_text(head);
    r.append(s);
    r.append(tail);
    r
}

impl AgentEvent {
    /// How an event is printed, and whether it is printed where errors are.
    pub fn print(&self) -> (r: (String, bool))
        ensures
            (r.0@, r.1) == printed_text(*self),
    {
        match self {
            AgentEvent::Step { n } => (
                wrapped("\n— LLM 调用 #", text::number(*n as u64).as_str(), "（流式）—\n"),
                false,
            ),
            AgentEvent::Content(s) => (text::copy_text(s.as_str()), false),
            AgentEvent::Reasoning(s) => (wrapped("\x1b[2m", s.as_str(), "\x1b[0m"), true),
            AgentEvent::ToolCall { name, args } => {
                let mut t = wrapped("  → 执行工具 ", name.as_str(), " (");
                t.append(args.as_str());
                t.append(")\n");
                (t, false)
            },
            AgentEvent::ToolResult(r) => (wrapped("  ← ", r.as_str(), "\n"), false),
            AgentEvent::PhaseChange { phase } => (
                wrapped("  [进入阶段 ", text::number(*phase as u64).as_str(), "]\n"),
                false,
            ),
            AgentEvent::Done(r) => (wrapped("\n[完成] ", r.as_str(), "\n"), false),
            AgentEvent::Usage(u) => {
                let mut t = wrapped(
                    "  [tokens in·out·total=",
                    text::number(u.prompt_tokens).as_str(),
                    "·",
                );
                t.append(text::number(u.completion_tokens).as_str());
                t.append("·");
                t.append(text::number(u.total_tokens).as_str());
                t.append("]\n");
                (t, false)
            },
            AgentEvent::Error(e) => (wrapped("\n[错误] ", e.as_str(), "\n"), false),
        }
    }
}

// ---- Titles ----

/// What is dropped from the front of a first message, if it starts with one of these.
pub open spec fn without_request(s: Seq<char>) -> Option<Seq<char>> {
    match text::after_prefix(s, "可以帮我"@) {
        Some(r) => Some(r),
        None => match text::after_prefix(s, "请帮我"@) {
            Some(r) => Some(r),
            None => match text::after_prefix(s, "能不能"@) {
                Some(r) => Some(r),
                None => match text::after_prefix(s, "帮我"@) {
                    Some(r) => Some(r),
                    None => match text::after_prefix(s, "我想"@) {
                        Some(r) => Some(r),
                        None => text::after_prefix(s, "请"@),
                    },
                },
            },
        },
    }
}

/// The words of a message with one space between them.
pub open spec fn normalized(s: Seq<char>) -> Seq<char> {
    text::joined(text::words(s), " "@)
}

/// The title that a first message gives a session: without the request that it opens with, without
/// punctuation at its ends, and at most fifteen characters long.
pub open spec fn title(input: Seq<char>) -> Seq<char> {
    let n = normalized(input);
    let body = match without_request(n) {
        Some(rest) => text::front_stripped(rest, CharClass::WhiteOrMark),
        None => n,
    };
    let short = text::shortened(text::stripped(body, CharClass::WhiteOrMark), 15);
    if short.len() == 0 {
        "新对话"@
    } else {
        short
    }
}

fn drop_request(s: &str) -> (r: Option<String>)
    ensures
        match r {
            Some(t) => without_request(s@) == Some(t@),
            None => without_request(s@) is None,
        },
{
    match text::strip_prefix(s, "可以帮我") {
        Some(r) => return Some(r),
        None => {},
    }
    match text::strip_prefix(s, "请帮我") {
        Some(r) => return Some(r),
        None => {},
    }
    match text::strip_prefix(s, "能不能") {
        Some(r) => return Some(r),
        None => {},
    }
    match text::strip_prefix(s, "帮我") {
        Some(r) => return Some(r),
        None => {},
    }
    match text::strip_prefix(s, "我想") {
        Some(r) => return Some(r),
        None => {},
    }
    text::strip_prefix(s, "请")
}

pub fn title_from_first_message(input: &str) -> (r: String)
    ensures
        r@ == title(input@),
{
    let words = text::split_whitespace(input);
    let normal = text::join(&words, " ");
    let body = match drop_request(normal.as_str()) {
        Some(rest) => text::strip_front(rest.as_str(), CharClass::WhiteOrMark),
        None => normal,
    };
    let bare = text::strip(body.as_str(), CharClass::WhiteOrMark);
    let short = text::shorten(bare.as_str(), 15);
    if text::char_count(short.as_str()) == 0 {
        text::copy_text("新对话")
    } else {
        short
    }
}

/// A title has at least one and at most fifteen characters.
pub proof fn law_title_length(input: Seq<char>)
    ensures
        1 <= title(input).len() <= 15,
{
    reveal_strlit("新对话");
}

impl SessionModel {
    /// Whether the session still waits for its first message and has no name.
    pub open spec fn awaits_title(self) -> bool {
        self.name is None && forall|i: int|
            0 <= i < self.messages.len() ==> (#[trigger] self.messages[i]).role != "user"@
    }

    /// The session, named after its first message where that is due.
    pub open spec fn titled(self, user: Seq<char>) -> SessionModel {
        if self.awaits_title() {
            SessionModel { name: Some(title(user)), ..self }
        } else {
            self
        }
    }

    /// The session at the start of a turn.
    pub open spec fn asked(self, user: Seq<char>) -> SessionModel {
        let s = self.titled(user);
        SessionModel { messages: s.messages.push(llm::plain_message("user"@, user)), ..s }
    }
}

pub fn should_name_first_message(session: &Session) -> (b: bool)
    ensures
        b == session@.awaits_title(),
{
    if session.name.is_some() {
        return false;
    }
    let mut i: usize = 0;
    while i < session.messages.len()
        invariant
            i <= session.messages@.len(),
            forall|j: int| 0 <= j < i ==> (#[trigger] session@.messages[j]).role != "user"@,
        decreases session.messages@.len() - i,
    {
        if text::same(session.messages[i].role.as_str(), "user") {
            assert(session@.messages[i as int].role == "user"@);
            return false;
        }
        i = i + 1;
    }
    true
}

pub fn name_first_message(session: &mut Session, user: &str)
    ensures
        final(session)@ == old(session)@.titled(user@),
{
    if should_name_first_message(session) {
        session.name = Some(title_from_first_message(user));
    }
}

/// Opens a turn: names the session where that is due, and adds the user's message.
pub fn begin_turn(session: &mut Session, user: &str)
    ensures
        final(session)@ == old(session)@.asked(user@),
{
    name_first_message(session, user);
    let m = Message::plain("user", text::copy_text(user));
    proof {
        llm::lemma_message_models_push(session.messages@, m);
    }
    session.messages.push(m);
}

/// A session's name is given once: a name that is there stays, and a session that has had a
/// message is not named after a later one.
pub proof fn law_name_is_given_once(s: SessionModel, first: Seq<char>, second: Seq<char>)
    ensures
        s.name is Some ==> s.asked(first).name == s.name,
        s.asked(first).asked(second).name == s.asked(first).name,
{
    let after = s.asked(first);
    let last = after.messages.len() - 1;
    assert(after.messages[last].role == "user"@);
}

// ---- Tools ----

pub open spec fn auto_tools() -> Seq<Seq<char>> {
    seq![
        "set_mode"@,
        "update_notes"@,
        "search_trains"@,
    ]
}

pub open spec fn inspiration_tools() -> Seq<Seq<char>> {
    seq![
        "set_mode"@,
        "update_notes"@,
        "search_trains"@,
        "search_web"@,
        "search_xhs"@,
        "read_xhs_note"@,
    ]
}

pub open spec fn schedule_tools() -> Seq<Seq<char>> {
    seq![
        "set_mode"@,
        "update_notes"@,
        "search_web"@,
        "search_trains"@,
        "get_weather"@,
        "geocode"@,
        "route_check"@,
        "generate_overview_map"@,
        "generate_city_map"@,
    ]
}

pub open spec fn map_tools() -> Seq<Seq<char>> {
    seq![
        "set_mode"@,
        "update_notes"@,
        "search_trains"@,
        "geocode"@,
        "route_check"@,
        "generate_overview_map"@,
        "generate_city_map"@,
    ]
}

pub open spec fn xhs_tools() -> Seq<Seq<char>> {
    seq![
        "set_mode"@,
        "update_notes"@,
        "search_trains"@,
        "search_xhs"@,
        "read_xhs_note"@,
    ]
}

pub open spec fn ctrip_tools() -> Seq<Seq<char>> {
    seq![
        "set_mode"@,
        "update_notes"@,
        "search_trains"@,
        "search_web"@,
        "search_hotel_reviews"@,
    ]
}

pub open spec fn knowledge_tools() -> Seq<Seq<char>> {
    seq![
        "set_mode"@,
        "update_notes"@,
        "search_trains"@,
    ]
}

pub open spec fn phase0_tools() -> Seq<Seq<char>> {
    seq![
        "set_phase"@,
        "update_notes"@,
        "search_trains"@,
        "search_web"@,
        "search_xhs"@,
        "read_xhs_note"@,
    ]
}

pub open spec fn phase1_tools() -> Seq<Seq<char>> {
    seq![
        "set_phase"@,
        "update_notes"@,
        "search_web"@,
        "search_xhs"@,
        "read_xhs_note"@,
        "search_trains"@,
        "get_weather"@,
        "geocode"@,
        "generate_overview_map"@,
    ]
}

pub open spec fn phase2_tools() -> Seq<Seq<char>> {
    seq![
        "set_phase"@,
        "update_notes"@,
        "search_web"@,
        "search_xhs"@,
        "read_xhs_note"@,
        "search_trains"@,
        "geocode"@,
        "cluster_pois"@,
        "route_check"@,
        "generate_overview_map"@,
    ]
}

pub open spec fn phase3_tools() -> Seq<Seq<char>> {
    seq![
        "set_phase"@,
        "update_notes"@,
        "search_web"@,
        "search_xhs"@,
        "read_xhs_note"@,
        "search_trains"@,
        "get_weather"@,
        "geocode"@,
        "route_check"@,
        "generate_city_map"@,
        "search_hotel_reviews"@,
    ]
}

pub open spec fn phase4_tools() -> Seq<Seq<char>> {
    seq![
        "set_phase"@,
        "update_notes"@,
        "search_web"@,
        "search_xhs"@,
        "read_xhs_note"@,
        "search_trains"@,
        "get_weather"@,
        "geocode"@,
        "route_check"@,
        "generate_city_map"@,
        "search_hotel_reviews"@,
    ]
}

pub open spec fn phase5_tools() -> Seq<Seq<char>> {
    seq![
        "set_phase"@,
        "update_notes"@,
        "search_web"@,
        "search_xhs"@,
        "read_xhs_note"@,
        "search_trains"@,
        "get_weather"@,
        "geocode"@,
        "route_check"@,
        "generate_overview_map"@,
        "generate_city_map"@,
        "search_hotel_reviews"@,
    ]
}

/// The tools that the model may call: by quick task in the quick workflow, by phase in the full one,
/// where every phase beyond the last counts as the last.
pub open spec fn allowed(mode: WorkflowMode, quick: QuickMode, phase: u8) -> Seq<Seq<char>> {
    match mode {
        WorkflowMode::Full => if phase == 0 {
            phase0_tools()
        } else if phase == 1 {
            phase1_tools()
        } else if phase == 2 {
            phase2_tools()
        } else if phase == 3 {
            phase3_tools()
        } else if phase == 4 {
            phase4_tools()
        } else {
            phase5_tools()
        },
        WorkflowMode::Quick => match quick {
            QuickMode::Auto => auto_tools(),
            QuickMode::Inspiration => inspiration_tools(),
            QuickMode::Schedule => schedule_tools(),
            QuickMode::Mapping => map_tools(),
            QuickMode::Xhs => xhs_tools(),
            QuickMode::Ctrip => ctrip_tools(),
            QuickMode::Knowledge => knowledge_tools(),
        },
    }
}

pub open spec fn name_views(names: Seq<&'static str>) -> Seq<Seq<char>> {
    names.map_values(|s: &'static str| s@)
}

impl SessionModel {
    pub open spec fn allowed_tools(self) -> Seq<Seq<char>> {
        allowed(self.workflow_mode, self.quick_mode, self.phase)
    }

    /// Whether the model may call a tool.
    pub open spec fn allows(self, tool: Seq<char>) -> bool {
        self.allowed_tools().contains(tool)
    }
}

proof fn lemma_tool_name_lengths()
    ensures
        "cluster_pois"@.len() == 12,
        "generate_city_map"@.len() == 17,
        "generate_overview_map"@.len() == 21,
        "geocode"@.len() == 7,
        "get_weather"@.len() == 11,
        "read_xhs_note"@.len() == 13,
        "route_check"@.len() == 11,
        "search_hotel_reviews"@.len() == 20,
        "search_trains"@.len() == 13,
        "search_web"@.len() == 10,
        "search_xhs"@.len() == 10,
        "set_mode"@.len() == 8,
        "set_phase"@.len() == 9,
        "update_notes"@.len() == 12,
        "cluster_pois"@[0] == 'c',
        "update_notes"@[0] == 'u',
{
    reveal_strlit("cluster_pois");
    reveal_strlit("generate_city_map");
    reveal_strlit("generate_overview_map");
    reveal_strlit("geocode");
    reveal_strlit("get_weather");
    reveal_strlit("read_xhs_note");
    reveal_strlit("route_check");
    reveal_strlit("search_hotel_reviews");
    reveal_strlit("search_trains");
    reveal_strlit("search_web");
    reveal_strlit("search_xhs");
    reveal_strlit("set_mode");
    reveal_strlit("set_phase");
    reveal_strlit("update_notes");
}

proof fn lemma_not_among(tools: Seq<Seq<char>>, name: Seq<char>)
    requires
        forall|i: int| 0 <= i < tools.len() ==> (#[trigger] tools[i]).len() != name.len(),
    ensures
        !tools.contains(name),
{
}

/// Train times may be looked up in every mode and phase, and notes kept; the phase is changed only
/// in the full workflow, the task only in the quick one.
pub proof fn law_tools_of_every_mode(mode: WorkflowMode, quick: QuickMode, phase: u8)
    ensures
        allowed(mode, quick, phase).contains("search_trains"@),
        allowed(mode, quick, phase).contains("update_notes"@),
        allowed(mode, quick, phase).contains("set_phase"@) == (mode == WorkflowMode::Full),
        allowed(mode, quick, phase).contains("set_mode"@) == (mode == WorkflowMode::Quick),
        phase >= 5 ==> allowed(mode, quick, phase) == allowed(mode, quick, 5),
{
    lemma_tool_name_lengths();
    let tools = allowed(mode, quick, phase);
    let trains = if mode == WorkflowMode::Quick {
        if quick == QuickMode::Schedule {
            3int
        } else {
            2int
        }
    } else if phase == 0 {
        2int
    } else {
        5int
    };
    assert(tools[trains] == "search_trains"@);
    assert(tools[1] == "update_notes"@);
    assert(tools[0] == (if mode == WorkflowMode::Quick {
        "set_mode"@
    } else {
        "set_phase"@
    }));
    if mode == WorkflowMode::Quick {
        lemma_not_among(tools, "set_phase"@);
    } else {
        lemma_not_among(tools, "set_mode"@);
    }
}

/// In the quick workflow the hotel reviews, the clusters and the maps are kept to the tasks that
/// they are for.
pub proof fn law_quick_tasks_are_kept_apart(quick: QuickMode, phase: u8)
    ensures
        allowed(WorkflowMode::Quick, quick, phase).contains("search_hotel_reviews"@) == (quick
            == QuickMode::Ctrip),
        allowed(WorkflowMode::Quick, quick, phase).contains("generate_city_map"@) == (quick
            == QuickMode::Schedule || quick == QuickMode::Mapping),
        !allowed(WorkflowMode::Quick, quick, phase).contains("cluster_pois"@),
        forall|p: u8|
            #[trigger] allowed(WorkflowMode::Quick, quick, p) == allowed(
                WorkflowMode::Quick,
                quick,
                phase,
            ),
{
    lemma_tool_name_lengths();
    let tools = allowed(WorkflowMode::Quick, quick, phase);
    if quick == QuickMode::Ctrip {
        assert(tools[4] == "search_hotel_reviews"@);
    } else {
        lemma_not_among(tools, "search_hotel_reviews"@);
    }
    if quick == QuickMode::Schedule {
        assert(tools[8] == "generate_city_map"@);
    } else if quick == QuickMode::Mapping {
        assert(tools[6] == "generate_city_map"@);
    } else {
        lemma_not_among(tools, "generate_city_map"@);
    }
    assert forall|i: int| 0 <= i < tools.len() implies #[trigger] tools[i] != "cluster_pois"@ by {
        if tools[i].len() == 12 {
            assert(tools[i][0] == 'u');
        }
    }
}

/// The agent's rules. What it needs to run (a client, its tools) is held by whoever runs it.
pub struct Agent {
    pub model: String,
    /// The bit pattern of a single-precision number.
    pub temperature: u32,
    pub max_tokens: u32,
    pub xhs_enabled: bool,
}

impl Agent {
    /// The names of the tools that the model may call.
    pub fn allowed_tool_names(session: &Session) -> (r: Vec<&'static str>)
        ensures
            name_views(r@) == session@.allowed_tools(),
    {
        let names: Vec<&'static str> = match session.workflow_mode {
            WorkflowMode::Full => if session.phase == 0 {
                vec![
            "set_phase",
            "update_notes",
            "search_trains",
            "search_web",
            "search_xhs",
            "read_xhs_note",
        ]
            } else if session.phase == 1 {
                vec![
            "set_phase",
            "update_notes",
            "search_web",
            "search_xhs",
            "read_xhs_note",
            "search_trains",
            "get_weather",
            "geocode",
            "generate_overview_map",
        ]
            } else if session.phase == 2 {
                vec![
            "set_phase",
            "update_notes",
            "search_web",
            "search_xhs",
            "read_xhs_note",
            "search_trains",
            "geocode",
            "cluster_pois",
            "route_check",
            "generate_overview_map",
        ]
            } else if session.phase == 3 {
                vec![
            "set_phase",
            "update_notes",
            "search_web",
            "search_xhs",
            "read_xhs_note",
            "search_trains",
            "get_weather",
            "geocode",
            "route_check",
            "generate_city_map",
            "search_hotel_reviews",
        ]
            } else if session.phase == 4 {
                vec![
            "set_phase",
            "update_notes",
            "search_web",
            "search_xhs",
            "read_xhs_note",
            "search_trains",
            "get_weather",
            "geocode",
            "route_check",
            "generate_city_map",
            "search_hotel_reviews",
        ]
            } else {
                vec![
            "set_phase",
            "update_notes",
            "search_web",
            "search_xhs",
            "read_xhs_note",
            "search_trains",
            "get_weather",
            "geocode",
            "route_check",
            "generate_overview_map",
            "generate_city_map",
            "search_hotel_reviews",
        ]
            },
            WorkflowMode::Quick => match session.quick_mode {
                QuickMode::Auto => vec![
            "set_mode",
            "update_notes",
            "search_trains",
        ],
                QuickMode::Inspiration => vec![
            "set_mode",
            "update_notes",
            "search_trains",
            "search_web",
            "search_xhs",
            "read_xhs_note",
        ],
                QuickMode::Schedule => vec![
            "set_mode",
            "update_notes",
            "search_web",
            "search_trains",
            "get_weather",
            "geocode",
            "route_check",
            "generate_overview_map",
            "generate_city_map",
        ],
                QuickMode::Mapping => vec![
            "set_mode",
            "update_notes",
            "search_trains",
            "geocode",
            "route_check",
            "generate_overview_map",
            "generate_city_map",
        ],
                QuickMode::Xhs => vec![
            "set_mode",
            "update_notes",
            "search_trains",
            "search_xhs",
            "read_xhs_note",
        ],
                QuickMode::Ctrip => vec![
            "set_mode",
            "update_notes",
            "search_trains",
            "search_web",
            "search_hotel_reviews",
        ],
                QuickMode::Knowledge => vec![
            "set_mode",
            "update_notes",
            "search_trains",
        ],
            },
        };
        assert(name_views(names@) =~= session@.allowed_tools());
        names
    }

    fn is_allowed(session: &Session, name: &str) -> (b: bool)
        ensures
            b == session@.allows(name@),
    {
        let names = Agent::allowed_tool_names(session);
        let ghost views = name_views(names@);
        let mut i: usize = 0;
        while i < names.len()
            invariant
                i <= names@.len(),
                views == name_views(names@),
                views == session@.allowed_tools(),
                forall|j: int| 0 <= j < i ==> #[trigger] views[j] != name@,
            decreases names@.len() - i,
        {
            let n: &'static str = names[i];
            assert(views[i as int] == n@);
            if text::same(n, name) {
                return true;
            }
            i = i + 1;
        }
        false
    }

    /// Refuses a call of a tool that the model may not call.
    pub fn ensure_tool_allowed(session: &Session, name: &str) -> (r: Result<(), String>)
        ensures
            match r {
                Ok(_) => session@.allows(name@),
                Err(e) => !session@.allows(name@) && e@ == refusal(session@, name@),
            },
    {
        if Agent::is_allowed(session, name) {
            Ok(())
        } else {
            let mut e = text::copy_text("当前模式不允许调用工具 ");
            e.append(name);
            e.append("（workflow_mode=");
            e.append(mode::workflow_debug_name(session.workflow_mode));
            e.append(", quick_mode=");
            e.append(mode::quick_debug_name(session.quick_mode));
            e.append(", phase=");
            e.append(text::number(session.phase as u64).as_str());
            e.append("）");
            Err(e)
        }
    }

    /// Changes the quick task, in the quick workflow only.
    pub fn apply_quick_mode(session: &mut Session, args: &serde_json::Value) -> (r: Result<
        String,
        String,
    >)
        ensures
            match r {
                Ok(out) => {
                    &&& old(session)@.workflow_mode == WorkflowMode::Quick
                    &&& mode::parsed_mode(json::json_tree(*args)) is Ok
                    &&& final(session)@ == (SessionModel {
                        quick_mode: mode::parsed_mode(json::json_tree(*args))->Ok_0,
                        ..old(session)@
                    })
                    &&& out@ == "已切换快捷任务类型为 \""@ + mode::key(
                        mode::parsed_mode(json::json_tree(*args))->Ok_0,
                    ) + "\""@
                },
                Err(e) => {
                    &&& final(session)@ == old(session)@
                    &&& old(session)@.workflow_mode != WorkflowMode::Quick ==> e@
                        == "完整攻略模式不允许调用 set_mode"@
                    &&& old(session)@.workflow_mode == WorkflowMode::Quick
                        ==> mode::parsed_mode(json::json_tree(*args)) == Err::<
                        QuickMode,
                        Seq<char>,
                    >(e@)
                },
            },
    {
        if session.workflow_mode != WorkflowMode::Quick {
            return Err(text::copy_text("完整攻略模式不允许调用 set_mode"));
        }
        match mode::parse_quick_mode(args) {
            Ok(m) => {
                session.quick_mode = m;
                let mut out = text::copy_text("已切换快捷任务类型为 \"");
                out.append(mode::mode_key(m));
                out.append("\"");
                Ok(out)
            },
            Err(e) => Err(e),
        }
    }
}

/// What a refused call is answered.
pub open spec fn refusal(s: SessionModel, name: Seq<char>) -> Seq<char> {
    "当前模式不允许调用工具 "@ + name + "（workflow_mode="@ + mode::workflow_name(s.workflow_mode)
        + ", quick_mode="@ + mode::quick_name(s.quick_mode) + ", phase="@ + text::dec(s.phase as nat)
        + "）"@
}

// ---- Tools as the model sees them ----

/// What a tool is offered as.
pub struct ToolModel {
    pub kind: Seq<char>,
    pub name: Seq<char>,
    pub description: Seq<char>,
    pub parameters: json::JsonTree,
}

impl View for Tool {
    type V = ToolModel;

    open spec fn view(&self) -> ToolModel {
        ToolModel {
            kind: self.kind@,
            name: self.function.name@,
            description: self.function.description@,
            parameters: json::json_tree(self.function.parameters),
        }
    }
}

pub open spec fn tool_models(tools: Seq<Tool>) -> Seq<ToolModel> {
    tools.map_values(|t: Tool| t@)
}

/// The registered tools that a session allows, in their order.
pub open spec fn visible_tools(s: SessionModel, registered: Seq<ToolModel>) -> Seq<ToolModel>
    decreases registered.len(),
{
    if registered.len() == 0 {
        Seq::empty()
    } else {
        let before = visible_tools(s, registered.drop_last());
        if s.allows(registered.last().name) {
            before.push(registered.last())
        } else {
            before
        }
    }
}

/// The definition of a tool.
pub fn llm_tool(name: &str, description: &str, parameters: serde_json::Value) -> (t: Tool)
    ensures
        t@ == (ToolModel {
            kind: "function"@,
            name: name@,
            description: description@,
            parameters: json::json_tree(parameters),
        }),
{
    Tool {
        kind: text::copy_text("function"),
        function: ToolFunction {
            name: text::copy_text(name),
            description: text::copy_text(description),
            parameters,
        },
    }
}

impl Tool {
    fn copy(&self) -> (t: Tool)
        ensures
            t@ == self@,
    {
        Tool {
            kind: text::copy_text(self.kind.as_str()),
            function: ToolFunction {
                name: text::copy_text(self.function.name.as_str()),
                description: text::copy_text(self.function.description.as_str()),
                parameters: json::copy_value(&self.function.parameters),
            },
        }
    }
}

impl Agent {
    /// The tools that are offered to the model: those that are registered and allowed.
    pub fn llm_tools_for(session: &Session, registered: &Vec<Tool>) -> (r: Vec<Tool>)
        ensures
            tool_models(r@) == visible_tools(session@, tool_models(registered@)),
    {
        let mut out: Vec<Tool> = Vec::new();
        let ghost all = tool_models(registered@);
        let mut i: usize = 0;
        assert(tool_models(out@) =~= visible_tools(session@, all.take(0)));
        while i < registered.len()
            invariant
                i <= registered@.len(),
                all == tool_models(registered@),
                tool_models(out@) == visible_tools(session@, all.take(i as int)),
            decreases registered@.len() - i,
        {
            let t = &registered[i];
            proof {
                assert(all.take(i + 1).drop_last() == all.take(i as int));
                assert(all.take(i + 1).last() == t@);
            }
            if Agent::is_allowed(session, t.function.name.as_str()) {
                let ghost before = tool_models(out@);
                let copy = t.copy();
                out.push(copy);
                assert(tool_models(out@) =~= before.push(copy@));
            }
            i = i + 1;
        }
        assert(all.take(all.len() as int) == all);
        out
    }
}

/// The model is offered no tool that it may not call, and none that is not registered.
pub proof fn law_offered_tools_are_allowed(s: SessionModel, registered: Seq<ToolModel>, i: int)
    requires
        0 <= i < visible_tools(s, registered).len(),
    ensures
        s.allows(visible_tools(s, registered)[i].name),
        registered.contains(visible_tools(s, registered)[i]),
    decreases registered.len(),
{
    if registered.len() > 0 {
        let front = registered.drop_last();
        let before = visible_tools(s, front);
        if i < before.len() {
            law_offered_tools_are_allowed(s, front, i);
            let k = choose|k: int| 0 <= k < front.len() && front[k] == before[i];
            assert(registered[k] == before[i]);
        } else {
            assert(registered[registered.len() - 1] == registered.last());
        }
    }
}

// ---- Arguments and calls ----

/// The text of the arguments of a call; without any, an empty object.
pub open spec fn args_text(raw: Option<Seq<char>>) -> Seq<char> {
    match raw {
        Some(s) => s,
        None => "{}"@,
    }
}

/// What is said of arguments that are not JSON.
pub open spec fn args_error(raw: Option<Seq<char>>, tool: Seq<char>) -> Seq<char> {
    "解析工具 "@ + tool + " 参数失败: "@ + args_text(raw) + ": "@ + json::json_error(args_text(raw))
}

/// What the arguments of a call hold, or what is said of them.
pub open spec fn parsed_args(raw: Option<Seq<char>>, tool: Seq<char>) -> Result<
    json::JsonTree,
    Seq<char>,
> {
    match json::json_parsed(args_text(raw)) {
        Some(t) => Ok(t),
        None => Err(args_error(raw, tool)),
    }
}

/// What a result of a JSON value holds.
pub open spec fn value_result(r: Result<serde_json::Value, String>) -> Result<
    json::JsonTree,
    Seq<char>,
> {
    match r {
        Ok(v) => Ok(json::json_tree(v)),
        Err(e) => Err(e@),
    }
}

/// The arguments of a call as a value.
pub fn parse_args(raw: &Option<String>, tool_name: &str) -> (r: Result<serde_json::Value, String>)
    ensures
        value_result(r) == parsed_args(llm::opt_text(*raw), tool_name@),
{
    let s: String = match raw {
        Some(t) => text::copy_text(t.as_str()),
        None => text::copy_text("{}"),
    };
    match json::parse_value(s.as_str()) {
        Ok(v) => Ok(v),
        Err(cause) => {
            let mut e = text::copy_text("解析工具 ");
            e.append(tool_name);
            e.append(" 参数失败: ");
            e.append(s.as_str());
            e.append(": ");
            e.append(cause.as_str());
            Err(e)
        },
    }
}

/// What becomes of a tool call.
pub enum Route {
    /// The agent itself has answered; a phase may have been entered.
    Answered { out: String, phase: Option<u8> },
    /// The registered tool at this place is to be run.
    Execute { tool: usize, args: serde_json::Value },
    /// The turn fails.
    Refused(String),
}

pub enum RouteModel {
    Answered { out: Seq<char>, phase: Option<u8> },
    Execute { tool: int, args: json::JsonTree },
    Refused(Seq<char>),
}

impl View for Route {
    type V = RouteModel;

    open spec fn view(&self) -> RouteModel {
        match *self {
            Route::Answered { out, phase } => RouteModel::Answered { out: out@, phase },
            Route::Execute { tool, args } => RouteModel::Execute {
                tool: tool as int,
                args: json::json_tree(args),
            },
            Route::Refused(e) => RouteModel::Refused(e@),
        }
    }
}

/// Where the first tool with a name is registered.
pub open spec fn tool_position(registered: Seq<ToolModel>, name: Seq<char>) -> Option<int>
    decreases registered.len(),
{
    if registered.len() == 0 {
        None
    } else {
        match tool_position(registered.drop_last(), name) {
            Some(i) => Some(i),
            None => if registered.last().name == name {
                Some(registered.len() - 1)
            } else {
                None
            },
        }
    }
}

/// The phase that the arguments of `set_phase` name: the lowest byte of their number, and 0 where
/// they name none.
pub open spec fn named_phase(args: json::JsonTree) -> u8 {
    match args.unsigned_at("phase"@) {
        Some(n) => (n % 256) as u8,
        None => 0,
    }
}

/// The answer to a call of `set_phase`; it is the same for a phase beyond the last, which is not
/// entered.
pub open spec fn phase_answer(phase: u8) -> Seq<char> {
    "已记录进入阶段 "@ + text::dec(phase as nat) + "，该阶段详细工作指令已生效"@
}

impl SessionModel {
    /// What becomes of a call; `parsed` is what its arguments hold, or what is said of them.
    pub open spec fn routed(
        self,
        call: llm::ToolCallModel,
        registered: Seq<ToolModel>,
        parsed: Result<json::JsonTree, Seq<char>>,
    ) -> (SessionModel, RouteModel) {
        if !self.allows(call.name) {
            (self, RouteModel::Refused(refusal(self, call.name)))
        } else {
            match parsed {
                Err(e) => (self, RouteModel::Refused(e)),
                Ok(args) => if call.name == "set_phase"@ {
                    let phase = named_phase(args);
                    let out = phase_answer(phase);
                    if phase <= 5 {
                        (
                            SessionModel { phase, ..self },
                            RouteModel::Answered { out, phase: Some(phase) },
                        )
                    } else {
                        (self, RouteModel::Answered { out, phase: None })
                    }
                } else if call.name == "set_mode"@ {
                    self.mode_set(args)
                } else {
                    match tool_position(registered, call.name) {
                        Some(i) => (self, RouteModel::Execute { tool: i, args }),
                        None => (self, RouteModel::Refused("未知工具: "@ + call.name)),
                    }
                },
            }
        }
    }

    /// What `set_mode` does.
    pub open spec fn mode_set(self, args: json::JsonTree) -> (SessionModel, RouteModel) {
        if self.workflow_mode != WorkflowMode::Quick {
            (self, RouteModel::Refused("完整攻略模式不允许调用 set_mode"@))
        } else {
            match mode::parsed_mode(args) {
                Ok(m) => (
                    SessionModel { quick_mode: m, ..self },
                    RouteModel::Answered {
                        out: "已切换快捷任务类型为 \""@ + mode::key(m) + "\""@,
                        phase: None,
                    },
                ),
                Err(e) => (self, RouteModel::Refused(e)),
            }
        }
    }
}

fn find_tool(registered: &Vec<Tool>, name: &str) -> (r: Option<usize>)
    ensures
        match r {
            Some(i) => tool_position(tool_models(registered@), name@) == Some(i as int) && i
                < registered@.len(),
            None => tool_position(tool_models(registered@), name@) is None,
        },
{
    let ghost all = tool_models(registered@);
    let mut i: usize = 0;
    while i < registered.len()
        invariant
            i <= registered@.len(),
            all == tool_models(registered@),
            tool_position(all.take(i as int), name@) is None,
        decreases registered@.len() - i,
    {
        proof {
            assert(all.take(i + 1).drop_last() == all.take(i as int));
            assert(all.take(i + 1).last() == registered@[i as int]@);
        }
        if text::same(registered[i].function.name.as_str(), name) {
            proof {
                lemma_tool_position(all, name@, i + 1);
            }
            return Some(i);
        }
        i = i + 1;
    }
    assert(all.take(all.len() as int) == all);
    None
}

proof fn lemma_tool_position(registered: Seq<ToolModel>, name: Seq<char>, n: int)
    requires
        0 <= n <= registered.len(),
        tool_position(registered.take(n), name) is Some,
    ensures
        tool_position(registered, name) == tool_position(registered.take(n), name),
    decreases registered.len() - n,
{
    if n < registered.len() {
        assert(registered.take(n + 1).drop_last() == registered.take(n));
        lemma_tool_position(registered, name, n + 1);
    } else {
        assert(registered.take(n) == registered);
    }
}

impl Agent {
    /// Decides what becomes of a tool call. `set_phase` and `set_mode` are answered here and change
    /// the session; whatever is not allowed is refused.
    pub fn route(session: &mut Session, call: &ToolCall, registered: &Vec<Tool>) -> (r: Route)
        ensures
            (final(session)@, r@) == old(session)@.routed(
                call@,
                tool_models(registered@),
                parsed_args(call@.arguments, call@.name),
            ),
    {
        let args = parse_args(&call.function.arguments, call.function.name.as_str());
        Agent::route_parsed(session, call, registered, args)
    }

    /// Decides what becomes of a tool call whose arguments have been read.
    pub fn route_parsed(
        session: &mut Session,
        call: &ToolCall,
        registered: &Vec<Tool>,
        args: Result<serde_json::Value, String>,
    ) -> (r: Route)
        ensures
            (final(session)@, r@) == old(session)@.routed(
                call@,
                tool_models(registered@),
                value_result(args),
            ),
    {
        let name = call.function.name.as_str();
        match Agent::ensure_tool_allowed(session, name) {
            Ok(_) => {},
            Err(e) => return Route::Refused(e),
        }
        match args {
            Err(e) => Route::Refused(e),
            Ok(args) => {
                if text::same(name, "set_phase") {
                    Agent::enter_phase(session, &args)
                } else if text::same(name, "set_mode") {
                    match Agent::apply_quick_mode(session, &args) {
                        Ok(out) => Route::Answered { out, phase: None },
                        Err(e) => Route::Refused(e),
                    }
                } else {
                    match find_tool(registered, name) {
                        Some(tool) => Route::Execute { tool, args },
                        None => {
                            let mut e = text::copy_text("未知工具: ");
                            e.append(name);
                            Route::Refused(e)
                        },
                    }
                }
            },
        }
    }

    fn enter_phase(session: &mut Session, args: &serde_json::Value) -> (r: Route)
        ensures
            ({
                let phase = named_phase(json::json_tree(*args));
                let out = phase_answer(phase);
                if phase <= 5 {
                    final(session)@ == (SessionModel { phase, ..old(session)@ }) && r@
                        == (RouteModel::Answered { out, phase: Some(phase) })
                } else {
                    final(session)@ == old(session)@ && r@ == (RouteModel::Answered {
                        out,
                        phase: None,
                    })
                }
            }),
    {
        let phase: u8 = match json::unsigned_at(args, "phase") {
            Some(n) => (n % 256) as u8,
            None => 0,
        };
        let mut out = text::copy_text("已记录进入阶段 ");
        out.append(text::number(phase as u64).as_str());
        out.append("，该阶段详细工作指令已生效");
        if phase <= 5 {
            session.phase = phase;
            Route::Answered { out, phase: Some(phase) }
        } else {
            Route::Answered { out, phase: None }
        }
    }

    /// Adds the answer to a tool call.
    pub fn answer(session: &mut Session, call: &ToolCall, out: String)
        ensures
            final(session)@ == (SessionModel {
                messages: old(session)@.messages.push(
                    llm::MessageModel {
                        role: "tool"@,
                        content: Some(out@),
                        tool_calls: None,
                        tool_call_id: Some(call@.id),
                        reasoning_content: None,
                    },
                ),
                ..old(session)@
            }),
    {
        let m = Message {
            role: text::copy_text("tool"),
            content: Some(out),
            tool_calls: None,
            tool_call_id: Some(text::copy_text(call.id.as_str())),
            reasoning_content: None,
        };
        proof {
            llm::lemma_message_models_push(session.messages@, m);
        }
        session.messages.push(m);
    }
}

/// Routing a call never changes the workflow, the messages, the tokens or the name; it changes the
/// phase only in the full workflow, to one from 0 to 5 that comes with the answer, and the task only
/// in the quick workflow.
pub proof fn law_routing_stays_in_its_mode(
    s: SessionModel,
    call: llm::ToolCallModel,
    registered: Seq<ToolModel>,
    parsed: Result<json::JsonTree, Seq<char>>,
)
    ensures
        ({
            let (after, route) = s.routed(call, registered, parsed);
            &&& after.workflow_mode == s.workflow_mode
            &&& after.messages == s.messages
            &&& after.usage == s.usage
            &&& after.name == s.name
            &&& after.id == s.id
            &&& after.owner_user_id == s.owner_user_id
            &&& after.phase != s.phase ==> s.workflow_mode == WorkflowMode::Full && after.phase <= 5
            &&& after.quick_mode != s.quick_mode ==> s.workflow_mode == WorkflowMode::Quick
                && after.quick_mode != QuickMode::Auto
            &&& route matches RouteModel::Answered { phase, .. } ==> match phase {
                Some(p) => p <= 5 && after.phase == p,
                None => after.phase == s.phase,
            }
            &&& route is Refused ==> after == s
            &&& !s.allows(call.name) ==> route == RouteModel::Refused(refusal(s, call.name))
            &&& route is Execute ==> s.allows(call.name)
        }),
{
    law_tools_of_every_mode(s.workflow_mode, s.quick_mode, s.phase);
    lemma_tool_name_lengths();
}

/// What follows a finished reply.
#[derive(Clone, Copy, PartialEq, Eq, Structural, Debug)]
pub enum StepEnd {
    /// The turn is over.
    Over,
    /// The model is asked again.
    Again { step: u32 },
    /// The turn has taken too many steps.
    TooMany,
}

/// What follows when the reply of a step has been dealt with: the turn ends where the reply made no
/// tool calls, and fails after the last allowed step.
pub fn after_step(step: u32, calls: usize) -> (r: StepEnd)
    requires
        step < turn::MAX_STEPS,
    ensures
        r == (if calls == 0 {
            StepEnd::Over
        } else if step + 1 < turn::MAX_STEPS {
            StepEnd::Again { step: (step + 1) as u32 }
        } else {
            StepEnd::TooMany
        }),
{
    if calls == 0 {
        StepEnd::Over
    } else if step + 1 < turn::MAX_STEPS {
        StepEnd::Again { step: step + 1 }
    } else {
        StepEnd::TooMany
    }
}

proof fn lemma_auto_tools(name: Seq<char>)
    ensures
        auto_tools().contains(name) <==> name == "set_mode"@ || name == "update_notes"@ || name == "search_trains"@,
{
    let t = auto_tools();
    assert(t[0] == "set_mode"@);
    assert(t[1] == "update_notes"@);
    assert(t[2] == "search_trains"@);
    if t.contains(name) {
        let i = choose|i: int| 0 <= i < t.len() && t[i] == name;
        assert(0 <= i < 3);
    }
}

proof fn lemma_inspiration_tools(name: Seq<char>)
    ensures
        inspiration_tools().contains(name) <==> name == "set_mode"@ || name == "update_notes"@ || name == "search_trains"@ || name == "search_web"@ || name == "search_xhs"@ || name == "read_xhs_note"@,
{
    let t = inspiration_tools();
    assert(t[0] == "set_mode"@);
    assert(t[1] == "update_notes"@);
    assert(t[2] == "search_trains"@);
    assert(t[3] == "search_web"@);
    assert(t[4] == "search_xhs"@);
    assert(t[5] == "read_xhs_note"@);
    if t.contains(name) {
        let i = choose|i: int| 0 <= i < t.len() && t[i] == name;
        assert(0 <= i < 6);
    }
}

proof fn lemma_schedule_tools(name: Seq<char>)
    ensures
        schedule_tools().contains(name) <==> name == "set_mode"@ || name == "update_notes"@ || name == "search_web"@ || name == "search_trains"@ || name == "get_weather"@ || name == "geocode"@ || name == "route_check"@ || name == "generate_overview_map"@ || name == "generate_city_map"@,
{
    let t = schedule_tools();
    assert(t[0] == "set_mode"@);
    assert(t[1] == "update_notes"@);
    assert(t[2] == "search_web"@);
    assert(t[3] == "search_trains"@);
    assert(t[4] == "get_weather"@);
    assert(t[5] == "geocode"@);
    assert(t[6] == "route_check"@);
    assert(t[7] == "generate_overview_map"@);
    assert(t[8] == "generate_city_map"@);
    if t.contains(name) {
        let i = choose|i: int| 0 <= i < t.len() && t[i] == name;
        assert(0 <= i < 9);
    }
}

proof fn lemma_map_tools(name: Seq<char>)
    ensures
        map_tools().contains(name) <==> name == "set_mode"@ || name == "update_notes"@ || name == "search_trains"@ || name == "geocode"@ || name == "route_check"@ || name == "generate_overview_map"@ || name == "generate_city_map"@,
{
    let t = map_tools();
    assert(t[0] == "set_mode"@);
    assert(t[1] == "update_notes"@);
    assert(t[2] == "search_trains"@);
    assert(t[3] == "geocode"@);
    assert(t[4] == "route_check"@);
    assert(t[5] == "generate_overview_map"@);
    assert(t[6] == "generate_city_map"@);
    if t.contains(name) {
        let i = choose|i: int| 0 <= i < t.len() && t[i] == name;
        assert(0 <= i < 7);
    }
}

proof fn lemma_xhs_tools(name: Seq<char>)
    ensures
        xhs_tools().contains(name) <==> name == "set_mode"@ || name == "update_notes"@ || name == "search_trains"@ || name == "search_xhs"@ || name == "read_xhs_note"@,
{
    let t = xhs_tools();
    assert(t[0] == "set_mode"@);
    assert(t[1] == "update_notes"@);
    assert(t[2] == "search_trains"@);
    assert(t[3] == "search_xhs"@);
    assert(t[4] == "read_xhs_note"@);
    if t.contains(name) {
        let i = choose|i: int| 0 <= i < t.len() && t[i] == name;
        assert(0 <= i < 5);
    }
}

proof fn lemma_ctrip_tools(name: Seq<char>)
    ensures
        ctrip_tools().contains(name) <==> name == "set_mode"@ || name == "update_notes"@ || name == "search_trains"@ || name == "search_web"@ || name == "search_hotel_reviews"@,
{
    let t = ctrip_tools();
    assert(t[0] == "set_mode"@);
    assert(t[1] == "update_notes"@);
    assert(t[2] == "search_trains"@);
    assert(t[3] == "search_web"@);
    assert(t[4] == "search_hotel_reviews"@);
    if t.contains(name) {
        let i = choose|i: int| 0 <= i < t.len() && t[i] == name;
        assert(0 <= i < 5);
    }
}

proof fn lemma_knowledge_tools(name: Seq<char>)
    ensures
        knowledge_tools().contains(name) <==> name == "set_mode"@ || name == "update_notes"@ || name == "search_trains"@,
{
    let t = knowledge_tools();
    assert(t[0] == "set_mode"@);
    assert(t[1] == "update_notes"@);
    assert(t[2] == "search_trains"@);
    if t.contains(name) {
        let i = choose|i: int| 0 <= i < t.len() && t[i] == name;
        assert(0 <= i < 3);
    }
}

proof fn lemma_phase0_tools(name: Seq<char>)
    ensures
        phase0_tools().contains(name) <==> name == "set_phase"@ || name == "update_notes"@ || name == "search_trains"@ || name == "search_web"@ || name == "search_xhs"@ || name == "read_xhs_note"@,
{
    let t = phase0_tools();
    assert(t[0] == "set_phase"@);
    assert(t[1] == "update_notes"@);
    assert(t[2] == "search_trains"@);
    assert(t[3] == "search_web"@);
    assert(t[4] == "search_xhs"@);
    assert(t[5] == "read_xhs_note"@);
    if t.contains(name) {
        let i = choose|i: int| 0 <= i < t.len() && t[i] == name;
        assert(0 <= i < 6);
    }
}

proof fn lemma_phase1_tools(name: Seq<char>)
    ensures
        phase1_tools().contains(name) <==> name == "set_phase"@ || name == "update_notes"@ || name == "search_web"@ || name == "search_xhs"@ || name == "read_xhs_note"@ || name == "search_trains"@ || name == "get_weather"@ || name == "geocode"@ || name == "generate_overview_map"@,
{
    let t = phase1_tools();
    assert(t[0] == "set_phase"@);
    assert(t[1] == "update_notes"@);
    assert(t[2] == "search_web"@);
    assert(t[3] == "search_xhs"@);
    assert(t[4] == "read_xhs_note"@);
    assert(t[5] == "search_trains"@);
    assert(t[6] == "get_weather"@);
    assert(t[7] == "geocode"@);
    assert(t[8] == "generate_overview_map"@);
    if t.contains(name) {
        let i = choose|i: int| 0 <= i < t.len() && t[i] == name;
        assert(0 <= i < 9);
    }
}

proof fn lemma_phase2_tools(name: Seq<char>)
    ensures
        phase2_tools().contains(name) <==> name == "set_phase"@ || name == "update_notes"@ || name == "search_web"@ || name == "search_xhs"@ || name == "read_xhs_note"@ || name == "search_trains"@ || name == "geocode"@ || name == "cluster_pois"@ || name == "route_check"@ || name == "generate_overview_map"@,
{
    let t = phase2_tools();
    assert(t[0] == "set_phase"@);
    assert(t[1] == "update_notes"@);
    assert(t[2] == "search_web"@);
    assert(t[3] == "search_xhs"@);
    assert(t[4] == "read_xhs_note"@);
    assert(t[5] == "search_trains"@);
    assert(t[6] == "geocode"@);
    assert(t[7] == "cluster_pois"@);
    assert(t[8] == "route_check"@);
    assert(t[9] == "generate_overview_map"@);
    if t.contains(name) {
        let i = choose|i: int| 0 <= i < t.len() && t[i] == name;
        assert(0 <= i < 10);
    }
}

proof fn lemma_phase3_tools(name: Seq<char>)
    ensures
        phase3_tools().contains(name) <==> name == "set_phase"@ || name == "update_notes"@ || name == "search_web"@ || name == "search_xhs"@ || name == "read_xhs_note"@ || name == "search_trains"@ || name == "get_weather"@ || name == "geocode"@ || name == "route_check"@ || name == "generate_city_map"@ || name == "search_hotel_reviews"@,
{
    let t = phase3_tools();
    assert(t[0] == "set_phase"@);
    assert(t[1] == "update_notes"@);
    assert(t[2] == "search_web"@);
    assert(t[3] == "search_xhs"@);
    assert(t[4] == "read_xhs_note"@);
    assert(t[5] == "search_trains"@);
    assert(t[6] == "get_weather"@);
    assert(t[7] == "geocode"@);
    assert(t[8] == "route_check"@);
    assert(t[9] == "generate_city_map"@);
    assert(t[10] == "search_hotel_reviews"@);
    if t.contains(name) {
        let i = choose|i: int| 0 <= i < t.len() && t[i] == name;
        assert(0 <= i < 11);
    }
}

proof fn lemma_phase4_tools(name: Seq<char>)
    ensures
        phase4_tools().contains(name) <==> name == "set_phase"@ || name == "update_notes"@ || name == "search_web"@ || name == "search_xhs"@ || name == "read_xhs_note"@ || name == "search_trains"@ || name == "get_weather"@ || name == "geocode"@ || name == "route_check"@ || name == "generate_city_map"@ || name == "search_hotel_reviews"@,
{
    let t = phase4_tools();
    assert(t[0] == "set_phase"@);
    assert(t[1] == "update_notes"@);
    assert(t[2] == "search_web"@);
    assert(t[3] == "search_xhs"@);
    assert(t[4] == "read_xhs_note"@);
    assert(t[5] == "search_trains"@);
    assert(t[6] == "get_weather"@);
    assert(t[7] == "geocode"@);
    assert(t[8] == "route_check"@);
    assert(t[9] == "generate_city_map"@);
    assert(t[10] == "search_hotel_reviews"@);
    if t.contains(name) {
        let i = choose|i: int| 0 <= i < t.len() && t[i] == name;
        assert(0 <= i < 11);
    }
}

proof fn lemma_phase5_tools(name: Seq<char>)
    ensures
        phase5_tools().contains(name) <==> name == "set_phase"@ || name == "update_notes"@ || name == "search_web"@ || name == "search_xhs"@ || name == "read_xhs_note"@ || name == "search_trains"@ || name == "get_weather"@ || name == "geocode"@ || name == "route_check"@ || name == "generate_overview_map"@ || name == "generate_city_map"@ || name == "search_hotel_reviews"@,
{
    let t = phase5_tools();
    assert(t[0] == "set_phase"@);
    assert(t[1] == "update_notes"@);
    assert(t[2] == "search_web"@);
    assert(t[3] == "search_xhs"@);
    assert(t[4] == "read_xhs_note"@);
    assert(t[5] == "search_trains"@);
    assert(t[6] == "get_weather"@);
    assert(t[7] == "geocode"@);
    assert(t[8] == "route_check"@);
    assert(t[9] == "generate_overview_map"@);
    assert(t[10] == "generate_city_map"@);
    assert(t[11] == "search_hotel_reviews"@);
    if t.contains(name) {
        let i = choose|i: int| 0 <= i < t.len() && t[i] == name;
        assert(0 <= i < 12);
    }
}

proof fn lemma_tool_names()
    ensures
        "cluster_pois"@.len() == 12 && "cluster_pois"@[0] == 'c' && "cluster_pois"@[4] == 't',
        "cluster_pois"@[7] == '_',
        "generate_city_map"@.len() == 17 && "generate_city_map"@[0] == 'g' && "generate_city_map"@[4] == 'r',
        "generate_city_map"@[7] == 'e',
        "generate_overview_map"@.len() == 21 && "generate_overview_map"@[0] == 'g' && "generate_overview_map"@[4] == 'r',
        "generate_overview_map"@[7] == 'e',
        "geocode"@.len() == 7 && "geocode"@[0] == 'g' && "geocode"@[4] == 'o',
        "get_weather"@.len() == 11 && "get_weather"@[0] == 'g' && "get_weather"@[4] == 'w',
        "get_weather"@[7] == 't',
        "read_xhs_note"@.len() == 13 && "read_xhs_note"@[0] == 'r' && "read_xhs_note"@[4] == '_',
        "read_xhs_note"@[7] == 's',
        "route_check"@.len() == 11 && "route_check"@[0] == 'r' && "route_check"@[4] == 'e',
        "route_check"@[7] == 'h',
        "search_hotel_reviews"@.len() == 20 && "search_hotel_reviews"@[0] == 's' && "search_hotel_reviews"@[4] == 'c',
        "search_hotel_reviews"@[7] == 'h',
        "search_trains"@.len() == 13 && "search_trains"@[0] == 's' && "search_trains"@[4] == 'c',
        "search_trains"@[7] == 't',
        "search_web"@.len() == 10 && "search_web"@[0] == 's' && "search_web"@[4] == 'c',
        "search_web"@[7] == 'w',
        "search_xhs"@.len() == 10 && "search_xhs"@[0] == 's' && "search_xhs"@[4] == 'c',
        "search_xhs"@[7] == 'x',
        "set_mode"@.len() == 8 && "set_mode"@[0] == 's' && "set_mode"@[4] == 'm',
        "set_mode"@[7] == 'e',
        "set_phase"@.len() == 9 && "set_phase"@[0] == 's' && "set_phase"@[4] == 'p',
        "set_phase"@[7] == 's',
        "update_notes"@.len() == 12 && "update_notes"@[0] == 'u' && "update_notes"@[4] == 't',
        "update_notes"@[7] == 'n',
{
    reveal_strlit("cluster_pois");
    reveal_strlit("generate_city_map");
    reveal_strlit("generate_overview_map");
    reveal_strlit("geocode");
    reveal_strlit("get_weather");
    reveal_strlit("read_xhs_note");
    reveal_strlit("route_check");
    reveal_strlit("search_hotel_reviews");
    reveal_strlit("search_trains");
    reveal_strlit("search_web");
    reveal_strlit("search_xhs");
    reveal_strlit("set_mode");
    reveal_strlit("set_phase");
    reveal_strlit("update_notes");
}

/// Which tools a task or phase has: notes and trains always; the change of task in the quick workflow
/// and that of phase in the full one; the web, the notes of travellers, weather, places, ways, maps and
/// hotels each where they are for something; and no other tool.
pub proof fn law_tools_are_for_their_tasks(
    mode: WorkflowMode,
    quick: QuickMode,
    phase: u8,
    name: Seq<char>,
)
    ensures
        ({
            let full = mode == WorkflowMode::Full;
            let planning = !full && (quick == QuickMode::Schedule || quick == QuickMode::Mapping);
            let has = allowed(mode, quick, phase);
            &&& has.contains("update_notes"@)
            &&& has.contains("search_trains"@)
            &&& has.contains("set_mode"@) <==> !full
            &&& has.contains("set_phase"@) <==> full
            &&& has.contains("search_web"@) <==> full || quick == QuickMode::Inspiration || quick
                == QuickMode::Schedule || quick == QuickMode::Ctrip
            &&& has.contains("search_xhs"@) <==> full || quick == QuickMode::Inspiration || quick
                == QuickMode::Xhs
            &&& has.contains("read_xhs_note"@) <==> full || quick == QuickMode::Inspiration || quick
                == QuickMode::Xhs
            &&& has.contains("get_weather"@) <==> (full && phase != 0 && phase != 2) || (!full
                && quick == QuickMode::Schedule)
            &&& has.contains("geocode"@) <==> (full && phase >= 1) || planning
            &&& has.contains("route_check"@) <==> (full && phase >= 2) || planning
            &&& has.contains("generate_overview_map"@) <==> (full && (phase == 1 || phase == 2
                || phase >= 5)) || planning
            &&& has.contains("generate_city_map"@) <==> (full && phase >= 3) || planning
            &&& has.contains("search_hotel_reviews"@) <==> (full && phase >= 3) || (!full && quick
                == QuickMode::Ctrip)
            &&& has.contains("cluster_pois"@) <==> full && phase == 2
            &&& has.contains(name) ==> name == "cluster_pois"@ || name == "generate_city_map"@ || name == "generate_overview_map"@ || name == "geocode"@ || name == "get_weather"@ || name == "read_xhs_note"@ || name == "route_check"@ || name == "search_hotel_reviews"@ || name == "search_trains"@ || name == "search_web"@ || name == "search_xhs"@ || name == "set_mode"@ || name == "set_phase"@ || name == "update_notes"@
        }),
{
    lemma_tool_names();
    lemma_allowed(mode, quick, phase, "cluster_pois"@);
    lemma_allowed(mode, quick, phase, "generate_city_map"@);
    lemma_allowed(mode, quick, phase, "generate_overview_map"@);
    lemma_allowed(mode, quick, phase, "geocode"@);
    lemma_allowed(mode, quick, phase, "get_weather"@);
    lemma_allowed(mode, quick, phase, "read_xhs_note"@);
    lemma_allowed(mode, quick, phase, "route_check"@);
    lemma_allowed(mode, quick, phase, "search_hotel_reviews"@);
    lemma_allowed(mode, quick, phase, "search_trains"@);
    lemma_allowed(mode, quick, phase, "search_web"@);
    lemma_allowed(mode, quick, phase, "search_xhs"@);
    lemma_allowed(mode, quick, phase, "set_mode"@);
    lemma_allowed(mode, quick, phase, "set_phase"@);
    lemma_allowed(mode, quick, phase, "update_notes"@);
    lemma_allowed(mode, quick, phase, name);
}

/// Whether the tools of a mode have a name, told list by list.
spec fn is_listed(mode: WorkflowMode, quick: QuickMode, phase: u8, name: Seq<char>) -> bool {
    match mode {
        WorkflowMode::Full => if phase == 0 {
            name == "set_phase"@ || name == "update_notes"@ || name == "search_trains"@ || name == "search_web"@ || name == "search_xhs"@ || name == "read_xhs_note"@
        } else if phase == 1 {
            name == "set_phase"@ || name == "update_notes"@ || name == "search_web"@ || name == "search_xhs"@ || name == "read_xhs_note"@ || name == "search_trains"@ || name == "get_weather"@ || name == "geocode"@ || name == "generate_overview_map"@
        } else if phase == 2 {
            name == "set_phase"@ || name == "update_notes"@ || name == "search_web"@ || name == "search_xhs"@ || name == "read_xhs_note"@ || name == "search_trains"@ || name == "geocode"@ || name == "cluster_pois"@ || name == "route_check"@ || name == "generate_overview_map"@
        } else if phase == 3 {
            name == "set_phase"@ || name == "update_notes"@ || name == "search_web"@ || name == "search_xhs"@ || name == "read_xhs_note"@ || name == "search_trains"@ || name == "get_weather"@ || name == "geocode"@ || name == "route_check"@ || name == "generate_city_map"@ || name == "search_hotel_reviews"@
        } else if phase == 4 {
            name == "set_phase"@ || name == "update_notes"@ || name == "search_web"@ || name == "search_xhs"@ || name == "read_xhs_note"@ || name == "search_trains"@ || name == "get_weather"@ || name == "geocode"@ || name == "route_check"@ || name == "generate_city_map"@ || name == "search_hotel_reviews"@
        } else {
            name == "set_phase"@ || name == "update_notes"@ || name == "search_web"@ || name == "search_xhs"@ || name == "read_xhs_note"@ || name == "search_trains"@ || name == "get_weather"@ || name == "geocode"@ || name == "route_check"@ || name == "generate_overview_map"@ || name == "generate_city_map"@ || name == "search_hotel_reviews"@
        },
        WorkflowMode::Quick => match quick {
            QuickMode::Auto => name == "set_mode"@ || name == "update_notes"@ || name == "search_trains"@,
            QuickMode::Inspiration => name == "set_mode"@ || name == "update_notes"@ || name == "search_trains"@ || name == "search_web"@ || name == "search_xhs"@ || name == "read_xhs_note"@,
            QuickMode::Schedule => name == "set_mode"@ || name == "update_notes"@ || name == "search_web"@ || name == "search_trains"@ || name == "get_weather"@ || name == "geocode"@ || name == "route_check"@ || name == "generate_overview_map"@ || name == "generate_city_map"@,
            QuickMode::Mapping => name == "set_mode"@ || name == "update_notes"@ || name == "search_trains"@ || name == "geocode"@ || name == "route_check"@ || name == "generate_overview_map"@ || name == "generate_city_map"@,
            QuickMode::Xhs => name == "set_mode"@ || name == "update_notes"@ || name == "search_trains"@ || name == "search_xhs"@ || name == "read_xhs_note"@,
            QuickMode::Ctrip => name == "set_mode"@ || name == "update_notes"@ || name == "search_trains"@ || name == "search_web"@ || name == "search_hotel_reviews"@,
            QuickMode::Knowledge => name == "set_mode"@ || name == "update_notes"@ || name == "search_trains"@,
        },
    }
}

proof fn lemma_allowed(mode: WorkflowMode, quick: QuickMode, phase: u8, name: Seq<char>)
    ensures
        allowed(mode, quick, phase).contains(name) <==> is_listed(mode, quick, phase, name),
{
    lemma_auto_tools(name);
    lemma_inspiration_tools(name);
    lemma_schedule_tools(name);
    lemma_map_tools(name);
    lemma_xhs_tools(name);
    lemma_ctrip_tools(name);
    lemma_knowledge_tools(name);
    lemma_phase0_tools(name);
    lemma_phase1_tools(name);
    lemma_phase2_tools(name);
    lemma_phase3_tools(name);
    lemma_phase4_tools(name);
    lemma_phase5_tools(name);
}

/// The tools that the model is offered are exactly the registered ones that the session allows, in
/// their order.
pub proof fn law_tools_are_offered(s: SessionModel, registered: Seq<ToolModel>, t: ToolModel)
    ensures
        visible_tools(s, Seq::empty()).len() == 0,
        allowed(s.workflow_mode, s.quick_mode, s.phase).contains(t.name) ==> visible_tools(
            s,
            registered.push(t),
        ) == visible_tools(s, registered).push(t),
        !allowed(s.workflow_mode, s.quick_mode, s.phase).contains(t.name) ==> visible_tools(
            s,
            registered.push(t),
        ) == visible_tools(s, registered),
{
    assert(registered.push(t).drop_last() =~= registered);
}

proof fn lemma_tool_found(registered: Seq<ToolModel>, name: Seq<char>)
    ensures
        match tool_position(registered, name) {
            Some(i) => 0 <= i < registered.len() && registered[i].name == name && forall|j: int|
                0 <= j < i ==> (#[trigger] registered[j]).name != name,
            None => forall|j: int|
                0 <= j < registered.len() ==> (#[trigger] registered[j]).name != name,
        },
    decreases registered.len(),
{
    if registered.len() > 0 {
        let front = registered.drop_last();
        lemma_tool_found(front, name);
        assert forall|j: int| 0 <= j < front.len() implies front[j] == registered[j] by {}
    }
}

/// An allowed call with readable arguments is answered by the tool of its name, with these arguments:
/// a change of phase or task on the spot, any other by the first registered tool of that name. A call
/// without a tool, and one whose arguments cannot be read, is refused.
pub proof fn law_calls_reach_their_tool(
    s: SessionModel,
    call: llm::ToolCallModel,
    registered: Seq<ToolModel>,
    args: json::JsonTree,
    e: Seq<char>,
)
    requires
        s.allows(call.name),
    ensures
        s.routed(call, registered, Err(e)) == (s, RouteModel::Refused(e)),
        call.name == "set_phase"@ ==> {
            let (after, route) = s.routed(call, registered, Ok(args));
            let n: u64 = match args.unsigned_at("phase"@) {
                Some(n) => n,
                None => 0,
            };
            let phase = (n % 256) as u8;
            &&& route matches RouteModel::Answered { out, phase: entered } && out
                == "已记录进入阶段 "@ + text::dec(phase as nat) + "，该阶段详细工作指令已生效"@
                && entered == (if phase <= 5 {
                Some(phase)
            } else {
                None
            })
            &&& phase <= 5 ==> after == (SessionModel { phase, ..s })
            &&& phase > 5 ==> after == s
        },
        call.name == "set_mode"@ && s.workflow_mode == WorkflowMode::Quick ==> {
            let (after, route) = s.routed(call, registered, Ok(args));
            match mode::parsed_mode(args) {
                Ok(m) => after == (SessionModel { quick_mode: m, ..s }) && (
                route matches RouteModel::Answered { out, phase } && phase is None && out
                    == "已切换快捷任务类型为 \""@ + mode::key(m) + "\""@),
                Err(why) => after == s && route == RouteModel::Refused(why),
            }
        },
        call.name != "set_phase"@ && call.name != "set_mode"@ ==> {
            let (after, route) = s.routed(call, registered, Ok(args));
            &&& after == s
            &&& if exists|i: int|
                0 <= i < registered.len() && (#[trigger] registered[i]).name == call.name {
                route matches RouteModel::Execute { tool, args: given } && given == args && 0 <= tool
                    < registered.len() && registered[tool].name == call.name && forall|j: int|
                    0 <= j < tool ==> (#[trigger] registered[j]).name != call.name
            } else {
                route == RouteModel::Refused("未知工具: "@ + call.name)
            }
        },
{
    reveal_strlit("set_phase");
    reveal_strlit("set_mode");
    assert("set_phase"@.len() == 9 && "set_mode"@.len() == 8);
    lemma_tool_found(registered, call.name);
}

/// The arguments of a call are the value that its text is as JSON, and an empty object without a text.
pub proof fn law_arguments_are_read(raw: Seq<char>, tool: Seq<char>)
    ensures
        parsed_args(Some(raw), tool) == (match json::json_read(raw) {
            Ok(t) => Ok::<json::JsonTree, Seq<char>>(t),
            Err(cause) => Err("解析工具 "@ + tool + " 参数失败: "@ + raw + ": "@ + cause),
        }),
        json::json_read("{}"@) matches Ok(t) ==> parsed_args(None, tool) == Ok::<
            json::JsonTree,
            Seq<char>,
        >(t),
{
}

// ---- Titles ----

/// A message that begins with words of request is titled by what follows them; one of several such
/// beginnings is taken whole.
pub proof fn law_requests_are_left_out(rest: Seq<char>, s: Seq<char>)
    ensures
        without_request("可以帮我"@ + rest) == Some(rest),
        without_request("请帮我"@ + rest) == Some(rest),
        without_request("能不能"@ + rest) == Some(rest),
        without_request("帮我"@ + rest) == Some(rest),
        without_request("我想"@ + rest) == Some(rest),
        !"帮我"@.is_prefix_of(rest) ==> without_request("请"@ + rest) == Some(rest),
        without_request(s) is None <==> !"可以帮我"@.is_prefix_of(s) && !"能不能"@.is_prefix_of(s)
            && !"帮我"@.is_prefix_of(s) && !"我想"@.is_prefix_of(s) && !"请"@.is_prefix_of(s),
{
    reveal_strlit("可以帮我");
    reveal_strlit("请帮我");
    reveal_strlit("能不能");
    reveal_strlit("帮我");
    reveal_strlit("我想");
    reveal_strlit("请");
    lemma_without(rest, "可以帮我"@);
    lemma_without(rest, "请帮我"@);
    lemma_without(rest, "能不能"@);
    lemma_without(rest, "帮我"@);
    lemma_without(rest, "我想"@);
    lemma_without(rest, "请"@);
    lemma_begins("请帮我"@ + rest, "可以帮我"@);
    lemma_begins("能不能"@ + rest, "可以帮我"@);
    lemma_begins("能不能"@ + rest, "请帮我"@);
    lemma_begins("帮我"@ + rest, "可以帮我"@);
    lemma_begins("帮我"@ + rest, "请帮我"@);
    lemma_begins("帮我"@ + rest, "能不能"@);
    lemma_begins("我想"@ + rest, "可以帮我"@);
    lemma_begins("我想"@ + rest, "请帮我"@);
    lemma_begins("我想"@ + rest, "能不能"@);
    lemma_begins("我想"@ + rest, "帮我"@);
    let asked = "请"@ + rest;
    lemma_begins(asked, "可以帮我"@);
    lemma_begins(asked, "能不能"@);
    lemma_begins(asked, "帮我"@);
    lemma_begins(asked, "我想"@);
    if text::has_prefix(asked, "请帮我"@) {
        assert(asked.take(3)[1] == '帮' && asked.take(3)[2] == '我');
        assert("帮我"@ =~= rest.subrange(0, 2));
    }
    lemma_prefix_forms(s, "可以帮我"@);
    lemma_prefix_forms(s, "请帮我"@);
    lemma_prefix_forms(s, "能不能"@);
    lemma_prefix_forms(s, "帮我"@);
    lemma_prefix_forms(s, "我想"@);
    lemma_prefix_forms(s, "请"@);
    if text::has_prefix(s, "请帮我"@) {
        assert(s.take(3)[0] == '请');
        assert(s.take(1) =~= "请"@);
    }
}

proof fn lemma_without(rest: Seq<char>, p: Seq<char>)
    ensures
        text::after_prefix(p + rest, p) == Some(rest),
{
    assert((p + rest).take(p.len() as int) =~= p);
    assert((p + rest).skip(p.len() as int) =~= rest);
}

proof fn lemma_begins(s: Seq<char>, p: Seq<char>)
    requires
        p.len() > 0,
        s.len() > 0,
        s[0] != p[0],
    ensures
        text::after_prefix(s, p) is None,
{
    if text::has_prefix(s, p) {
        assert(s.take(p.len() as int)[0] == p[0]);
    }
}

proof fn lemma_prefix_forms(s: Seq<char>, p: Seq<char>)
    ensures
        text::has_prefix(s, p) <==> p.is_prefix_of(s),
{
    if p.len() <= s.len() {
        assert(s.take(p.len() as int) =~= s.subrange(0, p.len() as int));
    }
}

/// A title is a piece of the message, with its blanks made single: what follows the words of request,
/// where there are any, without blanks and marks at its ends, up to fifteen characters. Where nothing
/// is left, it says that the conversation is new.
pub proof fn law_titles_are_of_the_message(input: Seq<char>) -> (r: (int, int))
    ensures
        ({
            let n = text::joined(text::words(input), " "@);
            let body = match without_request(n) {
                Some(rest) => rest,
                None => n,
            };
            let kept = body.subrange(r.0, r.1);
            &&& 0 <= r.0 <= r.1 <= body.len()
            &&& forall|i: int|
                0 <= i < r.0 ==> text::is_white(#[trigger] body[i]) || text::is_title_mark(body[i])
            &&& forall|i: int|
                r.1 <= i < body.len() ==> text::is_white(#[trigger] body[i]) || text::is_title_mark(
                    body[i],
                )
            &&& kept.len() > 0 ==> {
                &&& !text::is_white(kept[0]) && !text::is_title_mark(kept[0])
                &&& !text::is_white(kept.last()) && !text::is_title_mark(kept.last())
            }
            &&& kept.len() == 0 ==> title(input) == "新对话"@
            &&& 0 < kept.len() <= 15 ==> title(input) == kept
            &&& kept.len() > 15 ==> title(input) == kept.take(15)
        }),
{
    let class = CharClass::WhiteOrMark;
    let n = normalized(input);
    let body = match without_request(n) {
        Some(rest) => rest,
        None => n,
    };
    let once = text::front_stripped(body, class);
    text::lemma_front_gone(body, class);
    text::lemma_front_gone(once, class);
    if text::front_stripped(once, class).len() < once.len() {
        assert(class.has(once[0]));
    }
    assert(text::front_stripped(once, class) =~= once);
    text::lemma_back_gone(once, class);
    let kept = text::back_stripped(once, class);
    let a = body.len() - once.len();
    let b = a + kept.len();
    assert(kept =~= body.subrange(a, b));
    assert forall|i: int| b <= i < body.len() implies class.has(#[trigger] body[i]) by {
        assert(once[i - a] == body[i]);
    }
    assert(text::stripped(once, class) == kept);
    assert(text::stripped(body, class) == kept);
    (a, b)
}

/// A message is added as the user's; it names the session where that has no name and no message of the
/// user's yet.
pub proof fn law_messages_are_added(s: SessionModel, user: Seq<char>)
    ensures
        s.asked(user).messages == s.messages.push(
            llm::MessageModel {
                role: "user"@,
                content: Some(user),
                tool_calls: None,
                tool_call_id: None,
                reasoning_content: None,
            },
        ),
        s.name is None && (forall|i: int|
            0 <= i < s.messages.len() ==> (#[trigger] s.messages[i]).role != "user"@) ==> s.asked(
            user,
        ).name == Some(title(user)),
        s.name is Some || (exists|i: int|
            0 <= i < s.messages.len() && (#[trigger] s.messages[i]).role == "user"@) ==> s.asked(
            user,
        ).name == s.name,
{
}

/// On the command line every event is printed in its own form; only thoughts are dim and go out at
/// once.
pub proof fn law_events_are_printed(
    n: u32,
    s: String,
    args: String,
    phase: u8,
    u: llm::Usage,
)
    ensures
        printed_text(AgentEvent::Step { n }) == (
            "\n— LLM 调用 #"@ + text::dec(n as nat) + "（流式）—\n"@,
            false,
        ),
        printed_text(AgentEvent::Content(s)) == (s@, false),
        printed_text(AgentEvent::Reasoning(s)) == ("\x1b[2m"@ + s@ + "\x1b[0m"@, true),
        printed_text(AgentEvent::ToolCall { name: s, args }) == (
            "  → 执行工具 "@ + s@ + " ("@ + args@ + ")\n"@,
            false,
        ),
        printed_text(AgentEvent::ToolResult(s)) == ("  ← "@ + s@ + "\n"@, false),
        printed_text(AgentEvent::PhaseChange { phase }) == (
            "  [进入阶段 "@ + text::dec(phase as nat) + "]\n"@,
            false,
        ),
        printed_text(AgentEvent::Done(s)) == ("\n[完成] "@ + s@ + "\n"@, false),
        printed_text(AgentEvent::Usage(u)) == (
            "  [tokens in·out·total="@ + text::dec(u.prompt_tokens as nat) + "·"@ + text::dec(
                u.completion_tokens as nat,
            ) + "·"@ + text::dec(u.total_tokens as nat) + "]\n"@,
            false,
        ),
        printed_text(AgentEvent::Error(s)) == ("\n[错误] "@ + s@ + "\n"@, false),
{
}

/// A call that is not allowed changes nothing and is refused, with its name and where the session
/// stands.
pub proof fn law_refusals_tell_why(
    s: SessionModel,
    call: llm::ToolCallModel,
    registered: Seq<ToolModel>,
    args: Result<json::JsonTree, Seq<char>>,
)
    requires
        !s.allows(call.name),
    ensures
        s.routed(call, registered, args) == (
            s,
            RouteModel::Refused(
                "当前模式不允许调用工具 "@ + call.name + "（workflow_mode="@ + mode::workflow_name(
                    s.workflow_mode,
                ) + ", quick_mode="@ + mode::quick_name(s.quick_mode) + ", phase="@ + text::dec(
                    s.phase as nat,
                ) + "）"@,
            ),
        ),
{
}

} // verus!
