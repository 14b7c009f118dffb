//! The terminal front end without the terminal: what keys and events do to its state, and what its
//! screens show.

use vstd::prelude::*;

use crate::agent::AgentEvent;
use crate::llm;
use crate::llm::{Message, Usage};
use crate::markup;
use crate::markup::{LogLine, LogLineModel, Role};
use crate::text;

verus! {

/// A key.
#[derive(Clone, Copy, PartialEq, Eq, Structural, Debug)]
pub enum KeyCode {
    Enter,
    Esc,
    Backspace,
    Delete,
    Up,
    Down,
    Left,
    Right,
    PageUp,
    PageDown,
    End,
    Char(char),
    Other,
}

/// A key as it was pressed.
#[derive(Clone, Copy, PartialEq, Eq, Structural, Debug)]
pub struct Key {
    pub code: KeyCode,
    pub control: bool,
}

/// The state of the conversation's screen.
pub struct App {
    pub log: Vec<LogLine>,
    /// What is coming in and is not in the log yet.
    pub cur_content: String,
    pub cur_reasoning: String,
    pub input: String,
    /// Where the cursor stands, in characters.
    pub input_cursor: usize,
    pub running: bool,
    pub usage: Usage,
    /// Whether there is a turn that can be cancelled.
    pub cancellable: bool,
    pub model: String,
    pub phase: u8,
    pub should_quit: bool,
    pub switch_session: bool,
    /// The first line shown; without one the end is shown.
    pub scroll: Option<usize>,
    /// The first line shown when the end is shown.
    pub bottom_scroll: usize,
    /// The tools whose results have not come in.
    pub pending_tools: Vec<String>,
}

pub struct AppModel {
    pub log: Seq<LogLineModel>,
    pub cur_content: Seq<char>,
    pub cur_reasoning: Seq<char>,
    pub input: Seq<char>,
    pub input_cursor: int,
    pub running: bool,
    pub usage: Usage,
    pub cancellable: bool,
    pub model: Seq<char>,
    pub phase: u8,
    pub should_quit: bool,
    pub switch_session: bool,
    pub scroll: Option<usize>,
    pub bottom_scroll: usize,
    pub pending_tools: Seq<Seq<char>>,
}

pub open spec fn log_models(log: Seq<LogLine>) -> Seq<LogLineModel> {
    log.map_values(|l: LogLine| l@)
}

impl View for App {
    type V = AppModel;

    open spec fn view(&self) -> AppModel {
        AppModel {
            log: log_models(self.log@),
            cur_content: self.cur_content@,
            cur_reasoning: self.cur_reasoning@,
            input: self.input@,
            input_cursor: self.input_cursor as int,
            running: self.running,
            usage: self.usage,
            cancellable: self.cancellable,
            model: self.model@,
            phase: self.phase,
            should_quit: self.should_quit,
            switch_session: self.switch_session,
            scroll: self.scroll,
            bottom_scroll: self.bottom_scroll,
            pending_tools: text::views(self.pending_tools@),
        }
    }
}

impl AppModel {
    /// The cursor stands in the input, or right behind it.
    pub open spec fn valid(self) -> bool {
        0 <= self.input_cursor <= self.input.len()
    }

    /// With a character put in where the cursor stands.
    pub open spec fn typed(self, c: char) -> AppModel {
        AppModel {
            input: self.input.insert(self.input_cursor, c),
            input_cursor: self.input_cursor + 1,
            ..self
        }
    }

    /// The line from which scrolling starts.
    pub open spec fn scroll_base(self) -> usize {
        match self.scroll {
            Some(n) => n,
            None => self.bottom_scroll,
        }
    }

    /// Scrolled up by a number of lines.
    pub open spec fn scrolled_up(self, by: int) -> AppModel {
        let n = self.scroll_base();
        AppModel {
            scroll: Some(
                if n >= by {
                    (n - by) as usize
                } else {
                    0
                },
            ),
            ..self
        }
    }

    /// Scrolled down by a number of lines.
    pub open spec fn scrolled_down(self, by: int) -> AppModel {
        let n = self.scroll_base();
        AppModel {
            scroll: Some(
                if n + by <= usize::MAX {
                    (n + by) as usize
                } else {
                    usize::MAX
                },
            ),
            ..self
        }
    }

    /// Whether the input can be sent.
    pub open spec fn can_submit(self) -> bool {
        !self.running && text::trimmed(self.input).len() > 0
    }

    /// With the input sent.
    pub open spec fn submitted(self) -> AppModel {
        AppModel {
            log: self.log.push(LogLineModel { role: Role::User, text: self.input }),
            input: Seq::empty(),
            input_cursor: 0,
            running: true,
            cur_content: Seq::empty(),
            cur_reasoning: Seq::empty(),
            cancellable: true,
            ..self
        }
    }

    /// The state after a key. While a reply is coming in, only cancelling, leaving and scrolling
    /// work.
    pub open spec fn pressed(self, k: Key) -> AppModel {
        match k.code {
            KeyCode::Enter => if !self.running && k.control {
                self.typed('\n')
            } else if self.can_submit() {
                self.submitted()
            } else {
                self
            },
            KeyCode::Up => self.scrolled_up(1),
            KeyCode::Down => self.scrolled_down(1),
            KeyCode::PageUp => self.scrolled_up(10),
            KeyCode::PageDown => self.scrolled_down(10),
            KeyCode::End => AppModel { scroll: None, ..self },
            KeyCode::Left => if !self.running && self.input_cursor > 0 {
                AppModel { input_cursor: self.input_cursor - 1, ..self }
            } else {
                self
            },
            KeyCode::Right => if !self.running && self.input_cursor < self.input.len() {
                AppModel { input_cursor: self.input_cursor + 1, ..self }
            } else {
                self
            },
            KeyCode::Backspace => if !self.running && self.input_cursor > 0 {
                AppModel {
                    input: self.input.remove(self.input_cursor - 1),
                    input_cursor: self.input_cursor - 1,
                    ..self
                }
            } else {
                self
            },
            KeyCode::Delete => if !self.running && self.input_cursor < self.input.len() {
                AppModel { input: self.input.remove(self.input_cursor), ..self }
            } else {
                self
            },
            KeyCode::Char(c) => if k.control && c == 'c' {
                self
            } else if k.control && c == 'q' {
                AppModel { should_quit: true, ..self }
            } else if k.control && c == 'l' {
                AppModel { switch_session: true, should_quit: true, ..self }
            } else if self.running {
                self
            } else if k.control && c == 'a' {
                AppModel { input_cursor: 0, ..self }
            } else if k.control && c == 'e' {
                AppModel { input_cursor: self.input.len() as int, ..self }
            } else if k.control && c == 'j' {
                self.typed('\n')
            } else {
                self.typed(c)
            },
            KeyCode::Esc => self,
            KeyCode::Other => self,
        }
    }

    /// What a key asks for beyond the screen.
    pub open spec fn key_action(self, k: Key) -> KeyActionModel {
        match k.code {
            KeyCode::Enter => if (self.running || !k.control) && self.can_submit() {
                KeyActionModel::Submit(self.input)
            } else {
                KeyActionModel::Nothing
            },
            KeyCode::Char(c) => if k.control && (c == 'c' || c == 'l') && self.cancellable {
                KeyActionModel::Cancel
            } else {
                KeyActionModel::Nothing
            },
            _ => KeyActionModel::Nothing,
        }
    }
}

/// What a key asks for beyond the screen.
pub enum KeyAction {
    Nothing,
    /// A message is to be sent.
    Submit(String),
    /// The running turn is to be cancelled.
    Cancel,
}

pub enum KeyActionModel {
    Nothing,
    Submit(Seq<char>),
    Cancel,
}

impl View for KeyAction {
    type V = KeyActionModel;

    open spec fn view(&self) -> KeyActionModel {
        match *self {
            KeyAction::Nothing => KeyActionModel::Nothing,
            KeyAction::Submit(s) => KeyActionModel::Submit(s@),
            KeyAction::Cancel => KeyActionModel::Cancel,
        }
    }
}

fn push_log(log: &mut Vec<LogLine>, role: Role, s: String)
    ensures
        log_models(final(log)@) == log_models(old(log)@).push(LogLineModel { role, text: s@ }),
{
    log.push(LogLine { role, text: s });
    assert(log_models(log@) =~= log_models(old(log)@).push(LogLineModel { role, text: s@ }));
}

impl App {
    fn insert_char(&mut self, c: char)
        requires
            old(self)@.valid(),
        ensures
            final(self)@ == old(self)@.typed(c),
    {
        let mut v = text::chars_of(self.input.as_str());
        v.insert(self.input_cursor, c);
        let n = v.len();
        assert(n == old(self).input@.len() + 1);
        self.input = text::text_of(&v);
        self.input_cursor = self.input_cursor + 1;
        assert(self@.input =~= old(self)@.typed(c).input);
    }

    fn remove_char(&mut self, at: usize)
        requires
            at < old(self).input@.len(),
        ensures
            final(self)@ == (AppModel {
                input: old(self)@.input.remove(at as int),
                ..old(self)@
            }),
    {
        let mut v = text::chars_of(self.input.as_str());
        v.remove(at);
        self.input = text::text_of(&v);
        assert(self@.input =~= old(self)@.input.remove(at as int));
    }

    fn scroll_from(&self) -> (n: usize)
        ensures
            n == self@.scroll_base(),
    {
        match self.scroll {
            Some(n) => n,
            None => self.bottom_scroll,
        }
    }

    fn submit(&mut self) -> (message: String)
        ensures
            message@ == old(self)@.input,
            final(self)@ == old(self)@.submitted(),
    {
        let message = text::copy_text(self.input.as_str());
        let entry = text::copy_text(self.input.as_str());
        self.input = String::new();
        self.input_cursor = 0;
        push_log(&mut self.log, Role::User, entry);
        self.running = true;
        self.cur_content = String::new();
        self.cur_reasoning = String::new();
        self.cancellable = true;
        assert(self@.input =~= old(self)@.submitted().input);
        message
    }
}

/// Takes a key in.
pub fn handle_key(app: &mut App, k: Key) -> (action: KeyAction)
    requires
        old(app)@.valid(),
    ensures
        final(app)@ == old(app)@.pressed(k),
        action@ == old(app)@.key_action(k),
{
    match k.code {
        KeyCode::Enter => {
            if !app.running && k.control {
                app.insert_char('\n');
                return KeyAction::Nothing;
            }
            let bare = text::trim(app.input.as_str());
            if !app.running && text::char_count(bare.as_str()) > 0 {
                return KeyAction::Submit(app.submit());
            }
            KeyAction::Nothing
        },
        KeyCode::Up => {
            let n = app.scroll_from();
            app.scroll = Some(n.saturating_sub(1));
            KeyAction::Nothing
        },
        KeyCode::Down => {
            let n = app.scroll_from();
            app.scroll = Some(n.saturating_add(1));
            KeyAction::Nothing
        },
        KeyCode::PageUp => {
            let n = app.scroll_from();
            app.scroll = Some(n.saturating_sub(10));
            KeyAction::Nothing
        },
        KeyCode::PageDown => {
            let n = app.scroll_from();
            app.scroll = Some(n.saturating_add(10));
            KeyAction::Nothing
        },
        KeyCode::End => {
            app.scroll = None;
            KeyAction::Nothing
        },
        KeyCode::Left => {
            if !app.running && app.input_cursor > 0 {
                app.input_cursor = app.input_cursor - 1;
            }
            KeyAction::Nothing
        },
        KeyCode::Right => {
            if !app.running && app.input_cursor < text::char_count(app.input.as_str()) {
                app.input_cursor = app.input_cursor + 1;
            }
            KeyAction::Nothing
        },
        KeyCode::Backspace => {
            if !app.running && app.input_cursor > 0 {
                let at = app.input_cursor - 1;
                app.remove_char(at);
                app.input_cursor = at;
            }
            KeyAction::Nothing
        },
        KeyCode::Delete => {
            if !app.running && app.input_cursor < text::char_count(app.input.as_str()) {
                let at = app.input_cursor;
                app.remove_char(at);
            }
            KeyAction::Nothing
        },
        KeyCode::Char(c) => {
            if k.control && c == 'c' {
                return if app.cancellable {
                    KeyAction::Cancel
                } else {
                    KeyAction::Nothing
                };
            }
            if k.control && c == 'q' {
                app.should_quit = true;
                return KeyAction::Nothing;
            }
            if k.control && c == 'l' {
                app.switch_session = true;
                app.should_quit = true;
                return if app.cancellable {
                    KeyAction::Cancel
                } else {
                    KeyAction::Nothing
                };
            }
            if app.running {
                return KeyAction::Nothing;
            }
            if k.control && c == 'a' {
                app.input_cursor = 0;
            } else if k.control && c == 'e' {
                app.input_cursor = text::char_count(app.input.as_str());
            } else if k.control && c == 'j' {
                app.insert_char('\n');
            } else {
                app.insert_char(c);
            }
            KeyAction::Nothing
        },
        KeyCode::Esc => KeyAction::Nothing,
        KeyCode::Other => KeyAction::Nothing,
    }
}

/// The cursor never leaves the input, and while a reply is coming in the input does not change.
pub proof fn law_keys_keep_the_cursor(app: AppModel, k: Key)
    requires
        app.valid(),
    ensures
        app.pressed(k).valid(),
        app.running ==> app.pressed(k).input == app.input && app.pressed(k).input_cursor
            == app.input_cursor && app.pressed(k).log == app.log,
        app.key_action(k) is Submit ==> !app.running && app.pressed(k).running,
{
}

/// Removing the character before the cursor undoes typing one.
pub proof fn law_backspace_undoes_typing(app: AppModel, c: char)
    requires
        app.valid(),
        !app.running,
    ensures
        app.typed(c).pressed(Key { code: KeyCode::Backspace, control: false }) == app,
{
    let t = app.typed(c);
    assert(t.input.remove(t.input_cursor - 1) =~= app.input);
}

// ---- Events ----

impl AppModel {
    /// With what was coming in put into the log.
    pub open spec fn flushed(self) -> AppModel {
        if self.cur_content.len() == 0 {
            AppModel { cur_reasoning: Seq::empty(), ..self }
        } else {
            AppModel {
                log: self.log.push(
                    LogLineModel { role: Role::Assistant, text: self.cur_content },
                ),
                cur_content: Seq::empty(),
                cur_reasoning: Seq::empty(),
                ..self
            }
        }
    }

    pub open spec fn logged(self, role: Role, s: Seq<char>) -> AppModel {
        AppModel { log: self.log.push(LogLineModel { role, text: s }), ..self }
    }

    /// With the turn over.
    pub open spec fn ended(self) -> AppModel {
        AppModel { running: false, cancellable: false, scroll: None, ..self }
    }

    /// The state after an event.
    pub open spec fn notified(self, ev: AgentEvent) -> AppModel {
        match ev {
            AgentEvent::Step { n } => AppModel {
                scroll: None,
                ..self.logged(
                    Role::System,
                    "— 思考中…（第 "@ + text::dec((n + 1) as nat) + " 次调用）—"@,
                )
            },
            AgentEvent::Content(s) => AppModel { cur_content: self.cur_content + s@, ..self },
            AgentEvent::Reasoning(s) => AppModel { cur_reasoning: self.cur_reasoning + s@, ..self },
            AgentEvent::ToolCall { name, args } => {
                let f = self.flushed();
                AppModel {
                    scroll: None,
                    pending_tools: f.pending_tools.push(name@),
                    ..f.logged(Role::Tool, "→ "@ + name@ + "("@ + brief_args(args@) + ")"@)
                }
            },
            AgentEvent::ToolResult(r) => {
                let name = if self.pending_tools.len() == 0 {
                    Seq::empty()
                } else {
                    self.pending_tools[0]
                };
                AppModel {
                    scroll: None,
                    pending_tools: if self.pending_tools.len() == 0 {
                        self.pending_tools
                    } else {
                        self.pending_tools.drop_first()
                    },
                    ..self.logged(Role::Tool, result_text(name, r@))
                }
            },
            AgentEvent::Done(_) => self.flushed().ended(),
            AgentEvent::PhaseChange { phase } => AppModel { phase, ..self },
            AgentEvent::Usage(u) => AppModel { usage: u, ..self },
            AgentEvent::Error(e) => self.flushed().logged(
                Role::System,
                "[错误/取消] "@ + e@,
            ).ended(),
        }
    }
}

/// Calls are answered in the order in which they were made: a result belongs to the call that has
/// waited longest, and the others go on waiting.
pub proof fn law_results_go_to_calls_in_order(app: AppModel, result: String)
    requires
        app.pending_tools.len() > 0,
    ensures
        ({
            let after = app.notified(AgentEvent::ToolResult(result));
            &&& after.log == app.log.push(
                LogLineModel {
                    role: Role::Tool,
                    text: result_text(app.pending_tools[0], result@),
                },
            )
            &&& after.pending_tools == app.pending_tools.drop_first()
        }),
{
}

/// The arguments of a call as the log shows them: at most eighty characters.
pub open spec fn brief_args(args: Seq<char>) -> Seq<char> {
    if args.len() > 80 {
        args.take(80) + "…"@
    } else {
        args
    }
}

/// What the log shows of a tool's result: long ones are left out.
pub open spec fn result_text(tool: Seq<char>, result: Seq<char>) -> Seq<char> {
    if tool == "search_web"@ || tool == "search_xhs"@ || tool == "read_xhs_note"@ || tool
        == "search_hotel_reviews"@ {
        "← "@ + tool + " 完成（结果已供分析，聊天框不展示）"@
    } else if tool == "update_notes"@ {
        "← 会话记忆已更新（全文存 sessions/ 下本会话 .md 笔记，自动注入后续对话）"@
    } else {
        "← "@ + result
    }
}

fn shown_result(tool: &str, result: &str) -> (r: String)
    ensures
        r@ == result_text(tool@, result@),
{
    if text::same(tool, "search_web") || text::same(tool, "search_xhs") || text::same(
        tool,
        "read_xhs_note",
    ) || text::same(tool, "search_hotel_reviews") {
        let mut s = text::copy_text("← ");
        s.append(tool);
        s.append(" 完成（结果已供分析，聊天框不展示）");
        s
    } else if text::same(tool, "update_notes") {
        text::copy_text(
            "← 会话记忆已更新（全文存 sessions/ 下本会话 .md 笔记，自动注入后续对话）",
        )
    } else {
        let mut s = text::copy_text("← ");
        s.append(result);
        s
    }
}

fn shown_args(args: &str) -> (r: String)
    ensures
        r@ == brief_args(args@),
{
    if text::char_count(args) > 80 {
        let mut s = text::shorten(args, 80);
        s.append("…");
        s
    } else {
        text::copy_text(args)
    }
}

impl App {
    /// Puts what was coming in into the log.
    pub fn flush_cur(&mut self)
        ensures
            final(self)@ == old(self)@.flushed(),
    {
        if text::char_count(self.cur_content.as_str()) > 0 {
            let t = text::copy_text(self.cur_content.as_str());
            self.cur_content = String::new();
            push_log(&mut self.log, Role::Assistant, t);
        }
        self.cur_reasoning = String::new();
        assert(self@.cur_content =~= old(self)@.flushed().cur_content);
        assert(self@.cur_reasoning =~= old(self)@.flushed().cur_reasoning);
    }
}

/// Takes an event in.
pub fn handle_agent_event(app: &mut App, ev: &AgentEvent)
    ensures
        final(app)@ == old(app)@.notified(*ev),
{
    match ev {
        AgentEvent::Step { n } => {
            let mut s = text::copy_text("— 思考中…（第 ");
            s.append(text::number(*n as u64 + 1).as_str());
            s.append(" 次调用）—");
            push_log(&mut app.log, Role::System, s);
            app.scroll = None;
        },
        AgentEvent::Content(s) => {
            app.cur_content.append(s.as_str());
        },
        AgentEvent::Reasoning(s) => {
            app.cur_reasoning.append(s.as_str());
        },
        AgentEvent::ToolCall { name, args } => {
            app.flush_cur();
            let pending = text::copy_text(name.as_str());
            proof {
                text::lemma_views_push(app.pending_tools@, pending);
            }
            app.pending_tools.push(pending);
            let mut s = text::copy_text("→ ");
            s.append(name.as_str());
            s.append("(");
            s.append(shown_args(args.as_str()).as_str());
            s.append(")");
            push_log(&mut app.log, Role::Tool, s);
            app.scroll = None;
        },
        AgentEvent::ToolResult(r) => {
            let ghost before = app.pending_tools@;
            let name = if app.pending_tools.len() > 0 {
                app.pending_tools.remove(0)
            } else {
                String::new()
            };
            proof {
                assert(text::views(before).len() == before.len());
                if before.len() > 0 {
                    assert(text::views(app.pending_tools@) =~= text::views(before).drop_first());
                    assert(text::views(before)[0] == name@);
                } else {
                    assert(name@ =~= Seq::<char>::empty());
                }
            }
            let s = shown_result(name.as_str(), r.as_str());
            push_log(&mut app.log, Role::Tool, s);
            app.scroll = None;
        },
        AgentEvent::Done(_) => {
            app.flush_cur();
            app.running = false;
            app.cancellable = false;
            app.scroll = None;
        },
        AgentEvent::PhaseChange { phase } => {
            app.phase = *phase;
        },
        AgentEvent::Usage(u) => {
            app.usage = *u;
        },
        AgentEvent::Error(e) => {
            app.flush_cur();
            let mut s = text::copy_text("[错误/取消] ");
            s.append(e.as_str());
            push_log(&mut app.log, Role::System, s);
            app.running = false;
            app.cancellable = false;
            app.scroll = None;
        },
    }
}

/// Events never touch the input, and nothing that came in is lost: the log only grows, and what was
/// coming in is in it once the turn is over.
pub proof fn law_events_keep_the_log(app: AppModel, ev: AgentEvent)
    ensures
        app.notified(ev).input == app.input,
        app.notified(ev).input_cursor == app.input_cursor,
        app.log.len() <= app.notified(ev).log.len(),
        app.notified(ev).log.take(app.log.len() as int) =~= app.log,
        (ev is Done || ev is Error) ==> !app.notified(ev).running && app.notified(
            ev,
        ).cur_content.len() == 0,
        (ev is Done || ev is Error) && app.cur_content.len() > 0 ==> app.notified(
            ev,
        ).log[app.log.len() as int] == (LogLineModel {
            role: Role::Assistant,
            text: app.cur_content,
        }),
{
}

// ---- The history of a session ----

/// The log of a session's messages: those of the user, the assistant and the tools.
pub open spec fn history_log(messages: Seq<llm::MessageModel>) -> Seq<LogLineModel>
    decreases messages.len(),
{
    if messages.len() == 0 {
        Seq::empty()
    } else {
        let before = history_log(messages.drop_last());
        let m = messages.last();
        let said = match m.content {
            Some(s) => s,
            None => Seq::empty(),
        };
        if m.role == "user"@ {
            before.push(LogLineModel { role: Role::User, text: said })
        } else if m.role == "assistant"@ {
            before.push(LogLineModel { role: Role::Assistant, text: said })
        } else if m.role == "tool"@ {
            before.push(LogLineModel { role: Role::Tool, text: said })
        } else {
            before
        }
    }
}

fn log_of(messages: &Vec<Message>) -> (r: Vec<LogLine>)
    ensures
        log_models(r@) == history_log(llm::message_models(messages@)),
{
    let ghost all = llm::message_models(messages@);
    let mut log: Vec<LogLine> = Vec::new();
    let mut i: usize = 0;
    assert(log_models(log@) =~= history_log(all.take(0)));
    while i < messages.len()
        invariant
            i <= messages@.len(),
            all == llm::message_models(messages@),
            log_models(log@) == history_log(all.take(i as int)),
        decreases messages@.len() - i,
    {
        let m = &messages[i];
        proof {
            assert(all.take(i + 1).drop_last() =~= all.take(i as int));
            assert(all.take(i + 1).last() == m@);
        }
        let said = match &m.content {
            Some(s) => text::copy_text(s.as_str()),
            None => String::new(),
        };
        assert(said@ =~= match m@.content {
            Some(s) => s,
            None => Seq::empty(),
        });
        if text::same(m.role.as_str(), "user") {
            push_log(&mut log, Role::User, said);
        } else if text::same(m.role.as_str(), "assistant") {
            push_log(&mut log, Role::Assistant, said);
        } else if text::same(m.role.as_str(), "tool") {
            push_log(&mut log, Role::Tool, said);
        }
        i = i + 1;
    }
    assert(all.take(all.len() as int) =~= all);
    log
}

impl App {
    /// The screen of a session that is opened.
    pub fn open(model: String, history: &Vec<Message>, usage: Usage, phase: u8) -> (app: App)
        ensures
            app@ == (AppModel {
                log: history_log(llm::message_models(history@)),
                cur_content: Seq::empty(),
                cur_reasoning: Seq::empty(),
                input: Seq::empty(),
                input_cursor: 0,
                running: false,
                usage,
                cancellable: false,
                model: model@,
                phase,
                should_quit: false,
                switch_session: false,
                scroll: None,
                bottom_scroll: 0,
                pending_tools: Seq::empty(),
            }),
            app@.valid(),
    {
        let app = App {
            log: log_of(history),
            cur_content: String::new(),
            cur_reasoning: String::new(),
            input: String::new(),
            input_cursor: 0,
            running: false,
            usage,
            cancellable: false,
            model,
            phase,
            should_quit: false,
            switch_session: false,
            scroll: None,
            bottom_scroll: 0,
            pending_tools: Vec::new(),
        };
        assert(app@.pending_tools =~= Seq::<Seq<char>>::empty());
        assert(app@.cur_content =~= Seq::<char>::empty());
        app
    }
}

// ---- What keys and events do ----

/// A typed character stands before the cursor, and nothing else changes.
pub proof fn law_characters_are_typed_at_the_cursor(app: AppModel, c: char)
    requires
        app.valid(),
        !app.running,
    ensures
        ({
            let after = app.pressed(Key { code: KeyCode::Char(c), control: false });
            &&& after.input == app.input.take(app.input_cursor) + seq![c] + app.input.skip(
                app.input_cursor,
            )
            &&& after.input_cursor == app.input_cursor + 1
            &&& after == (AppModel { input: after.input, input_cursor: after.input_cursor, ..app })
            &&& app.pressed(Key { code: KeyCode::Enter, control: true }) == app.pressed(
                Key { code: KeyCode::Char('\n'), control: false },
            )
            &&& app.pressed(Key { code: KeyCode::Char('j'), control: true }) == app.pressed(
                Key { code: KeyCode::Char('\n'), control: false },
            )
        }),
{
    assert(app.typed(c).input =~= app.input.take(app.input_cursor) + seq![c] + app.input.skip(
        app.input_cursor,
    ));
}

/// The keys that move in the text and take characters from it do so one by one, while nothing runs.
pub proof fn law_editing_keys_edit(app: AppModel, control: bool)
    requires
        app.valid(),
        !app.running,
    ensures
        ({
            let at = app.input_cursor;
            let n = app.input.len() as int;
            let left = app.pressed(Key { code: KeyCode::Left, control });
            let right = app.pressed(Key { code: KeyCode::Right, control });
            let back = app.pressed(Key { code: KeyCode::Backspace, control });
            let delete = app.pressed(Key { code: KeyCode::Delete, control });
            &&& at > 0 ==> left == (AppModel { input_cursor: at - 1, ..app })
            &&& at == 0 ==> left == app && back == app
            &&& at < n ==> right == (AppModel { input_cursor: at + 1, ..app })
            &&& at == n ==> right == app && delete == app
            &&& at > 0 ==> back.input == app.input.take(at - 1) + app.input.skip(at) && back == (
            AppModel { input: back.input, input_cursor: at - 1, ..app })
            &&& at < n ==> delete.input == app.input.take(at) + app.input.skip(at + 1) && delete == (
            AppModel { input: delete.input, ..app })
            &&& app.pressed(Key { code: KeyCode::Char('a'), control: true }) == (AppModel {
                input_cursor: 0,
                ..app
            })
            &&& app.pressed(Key { code: KeyCode::Char('e'), control: true }) == (AppModel {
                input_cursor: n,
                ..app
            })
        }),
{
    let at = app.input_cursor;
    if at > 0 {
        assert(app.input.remove(at - 1) =~= app.input.take(at - 1) + app.input.skip(at));
    }
    if at < app.input.len() {
        assert(app.input.remove(at) =~= app.input.take(at) + app.input.skip(at + 1));
    }
}

/// The log is scrolled by one line or by ten, from where it stands or from its end, and not beyond its
/// start; the end key follows the end again.
pub proof fn law_scrolling_moves_the_view(app: AppModel, control: bool)
    ensures
        ({
            let from = match app.scroll {
                Some(n) => n as int,
                None => app.bottom_scroll as int,
            };
            let up = app.pressed(Key { code: KeyCode::Up, control });
            let down = app.pressed(Key { code: KeyCode::Down, control });
            let page_up = app.pressed(Key { code: KeyCode::PageUp, control });
            let page_down = app.pressed(Key { code: KeyCode::PageDown, control });
            &&& from >= 1 ==> up.scroll == Some((from - 1) as usize)
            &&& from < 1 ==> up.scroll == Some(0usize)
            &&& from >= 10 ==> page_up.scroll == Some((from - 10) as usize)
            &&& from < 10 ==> page_up.scroll == Some(0usize)
            &&& from + 1 <= usize::MAX ==> down.scroll == Some((from + 1) as usize)
            &&& from + 10 <= usize::MAX ==> page_down.scroll == Some((from + 10) as usize)
            &&& from + 10 > usize::MAX ==> page_down.scroll == Some(usize::MAX)
            &&& app.pressed(Key { code: KeyCode::End, control }) == (AppModel { scroll: None, ..app })
            &&& up == (AppModel { scroll: up.scroll, ..app })
            &&& down == (AppModel { scroll: down.scroll, ..app })
            &&& page_up == (AppModel { scroll: page_up.scroll, ..app })
            &&& page_down == (AppModel { scroll: page_down.scroll, ..app })
        }),
{
}

/// A line that is not blank is submitted while nothing runs: it goes to the log and to the model as it
/// was typed, and the line is empty again. Otherwise the key does nothing.
pub proof fn law_lines_are_submitted(app: AppModel)
    ensures
        ({
            let k = Key { code: KeyCode::Enter, control: false };
            let after = app.pressed(k);
            let sends = !app.running && text::trimmed(app.input).len() > 0;
            &&& !sends ==> after == app && app.key_action(k) == KeyActionModel::Nothing
            &&& sends ==> {
                &&& app.key_action(k) == KeyActionModel::Submit(app.input)
                &&& after.log == app.log.push(LogLineModel { role: Role::User, text: app.input })
                &&& after.input.len() == 0 && after.input_cursor == 0
                &&& after.cur_content.len() == 0 && after.cur_reasoning.len() == 0
                &&& after.running && after.cancellable
                &&& after.usage == app.usage && after.model == app.model && after.phase == app.phase
                &&& after.should_quit == app.should_quit && after.switch_session
                    == app.switch_session
                &&& after.scroll == app.scroll && after.bottom_scroll == app.bottom_scroll
                &&& after.pending_tools == app.pending_tools
            }
        }),
{
}

/// Ctrl-C and Ctrl-L stop what can be stopped, Ctrl-Q and Ctrl-L leave, and Ctrl-L leaves for another
/// session; no other character does any of it.
pub proof fn law_control_keys_stop_and_leave(app: AppModel, c: char)
    ensures
        ({
            let k = Key { code: KeyCode::Char(c), control: true };
            let after = app.pressed(k);
            &&& app.key_action(k) == (if app.cancellable && (c == 'c' || c == 'l') {
                KeyActionModel::Cancel
            } else {
                KeyActionModel::Nothing
            })
            &&& app.key_action(Key { code: KeyCode::Char(c), control: false })
                == KeyActionModel::Nothing
            &&& c == 'c' ==> after == app
            &&& c == 'q' ==> after == (AppModel { should_quit: true, ..app })
            &&& c == 'l' ==> after == (AppModel { should_quit: true, switch_session: true, ..app })
            &&& c != 'q' && c != 'l' ==> after.should_quit == app.should_quit && after.switch_session
                == app.switch_session
            &&& app.running && c != 'q' && c != 'l' ==> after == app
            &&& app.running ==> app.pressed(Key { code: KeyCode::Char(c), control: false }) == app
            &&& app.pressed(Key { code: KeyCode::Esc, control: true }) == app
            &&& app.pressed(Key { code: KeyCode::Other, control: true }) == app
        }),
{
}

/// Text and thoughts that come in are put behind what came before; a step, a stage and the counts are
/// shown; what came in goes to the log before a call and at the end.
pub proof fn law_events_are_shown(app: AppModel, s: String, n: u32, u: Usage, phase: u8)
    ensures
        app.notified(AgentEvent::Content(s)) == (AppModel {
            cur_content: app.cur_content + s@,
            ..app
        }),
        app.notified(AgentEvent::Reasoning(s)) == (AppModel {
            cur_reasoning: app.cur_reasoning + s@,
            ..app
        }),
        app.notified(AgentEvent::Step { n }) == (AppModel {
            scroll: None,
            log: app.log.push(
                LogLineModel {
                    role: Role::System,
                    text: "— 思考中…（第 "@ + text::dec((n + 1) as nat) + " 次调用）—"@,
                },
            ),
            ..app
        }),
        app.notified(AgentEvent::PhaseChange { phase }) == (AppModel { phase, ..app }),
        app.notified(AgentEvent::Usage(u)) == (AppModel { usage: u, ..app }),
{
}

/// What came in goes to the log as the assistant's before a call is shown and at the end, unless it is
/// empty; an end stops the run and follows the end of the log, and a failure is shown as well.
pub proof fn law_what_came_in_is_kept(app: AppModel, s: String, args: String)
    ensures
        ({
            let kept = if app.cur_content.len() == 0 {
                app.log
            } else {
                app.log.push(LogLineModel { role: Role::Assistant, text: app.cur_content })
            };
            let called = app.notified(AgentEvent::ToolCall { name: s, args });
            let done = app.notified(AgentEvent::Done(s));
            let failed = app.notified(AgentEvent::Error(s));
            let shown = if args@.len() > 80 {
                args@.take(80) + "…"@
            } else {
                args@
            };
            &&& called == (AppModel {
                log: kept.push(
                    LogLineModel { role: Role::Tool, text: "→ "@ + s@ + "("@ + shown + ")"@ },
                ),
                cur_content: Seq::empty(),
                cur_reasoning: Seq::empty(),
                scroll: None,
                pending_tools: app.pending_tools.push(s@),
                ..app
            })
            &&& done == (AppModel {
                log: kept,
                cur_content: Seq::empty(),
                cur_reasoning: Seq::empty(),
                running: false,
                cancellable: false,
                scroll: None,
                ..app
            })
            &&& failed == (AppModel {
                log: kept.push(LogLineModel { role: Role::System, text: "[错误/取消] "@ + s@ }),
                cur_content: Seq::empty(),
                cur_reasoning: Seq::empty(),
                running: false,
                cancellable: false,
                scroll: None,
                ..app
            })
        }),
{
    if app.cur_content.len() == 0 {
        assert(app.cur_content =~= Seq::empty());
    }
}

/// Results that are only for the model are not shown, those of the notes are told in short, and all
/// others are shown.
pub proof fn law_results_are_shown_or_told(tool: Seq<char>, result: Seq<char>)
    ensures
        tool == "search_web"@ || tool == "search_xhs"@ || tool == "read_xhs_note"@ || tool
            == "search_hotel_reviews"@ ==> result_text(tool, result) == "← "@ + tool
            + " 完成（结果已供分析，聊天框不展示）"@,
        result_text("update_notes"@, result)
            == "← 会话记忆已更新（全文存 sessions/ 下本会话 .md 笔记，自动注入后续对话）"@,
        tool != "search_web"@ && tool != "search_xhs"@ && tool != "read_xhs_note"@ && tool
            != "search_hotel_reviews"@ && tool != "update_notes"@ ==> result_text(tool, result)
            == "← "@ + result,
{
    reveal_strlit("search_web");
    reveal_strlit("search_xhs");
    reveal_strlit("read_xhs_note");
    reveal_strlit("search_hotel_reviews");
    reveal_strlit("update_notes");
    assert("update_notes"@.len() == 12 && "search_web"@.len() == 10 && "search_xhs"@.len() == 10
        && "read_xhs_note"@.len() == 13 && "search_hotel_reviews"@.len() == 20);
}

/// Of a stored conversation the words of the user, the assistant and the tools are shown, each as its
/// own, in order.
pub proof fn law_history_is_shown(messages: Seq<llm::MessageModel>, m: llm::MessageModel)
    ensures
        ({
            let said = match m.content {
                Some(s) => s,
                None => Seq::empty(),
            };
            let before = history_log(messages);
            let after = history_log(messages.push(m));
            &&& history_log(Seq::empty()).len() == 0
            &&& m.role == "user"@ ==> after == before.push(
                LogLineModel { role: Role::User, text: said },
            )
            &&& m.role == "assistant"@ ==> after == before.push(
                LogLineModel { role: Role::Assistant, text: said },
            )
            &&& m.role == "tool"@ ==> after == before.push(
                LogLineModel { role: Role::Tool, text: said },
            )
            &&& m.role != "user"@ && m.role != "assistant"@ && m.role != "tool"@ ==> after == before
        }),
{
    reveal_strlit("user");
    reveal_strlit("assistant");
    reveal_strlit("tool");
    assert("user"@[0] == 'u' && "assistant"@[0] == 'a' && "tool"@[0] == 't');
    assert(messages.push(m).drop_last() =~= messages);
}

} // verus!
