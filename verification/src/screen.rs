//! What the screens show: the conversation, the input, and the list of sessions to choose from.

use vstd::prelude::*;

use crate::calendar;
use crate::clock;
use crate::clock::Timestamp;
use crate::llm;
use crate::markup;
use crate::markup::{Color, LogLine, LogLineModel, Span, SpanModel, Style};
use crate::phase;
use crate::session::{SessionMeta, SessionMetaModel};
use crate::text;
use crate::ui::{App, AppModel, KeyCode};

verus! {

// ---- The conversation ----

/// The lines of the log.
pub open spec fn log_lines(log: Seq<LogLineModel>) -> Seq<Seq<SpanModel>>
    decreases log.len(),
{
    if log.len() == 0 {
        Seq::empty()
    } else {
        log_lines(log.drop_last()) + markup::entry_lines(log.last())
    }
}

/// The line of what the model is thinking.
pub open spec fn reasoning_lines(s: Seq<char>) -> Seq<Seq<SpanModel>> {
    if s.len() == 0 {
        Seq::empty()
    } else {
        seq![
            seq![
                SpanModel {
                    text: "💭 "@ + s,
                    style: Style::plain().colored(Color::DarkGray).faint(),
                },
            ],
        ]
    }
}

/// The lines of what the model is saying.
pub open spec fn content_lines(s: Seq<char>) -> Seq<Seq<SpanModel>> {
    if s.len() == 0 {
        Seq::empty()
    } else {
        let parts = text::split_at_char(s, '\n');
        let style = Style::plain().colored(Color::White);
        Seq::new(
            parts.len(),
            |i: int|
                seq![
                    if i == 0 {
                        SpanModel { text: "拾光者: "@, style: style.strong() }
                    } else {
                        SpanModel { text: "  "@, style: Style::plain() }
                    },
                ] + markup::line_spans(parts[i], style),
        )
    }
}

impl AppModel {
    /// All lines of the conversation, before wrapping.
    pub open spec fn chat_lines(self) -> Seq<Seq<SpanModel>> {
        log_lines(self.log) + reasoning_lines(self.cur_reasoning) + content_lines(self.cur_content)
    }

    /// What stands in the input box: with the cursor in its place, unless a reply is coming in.
    pub open spec fn input_text(self) -> Seq<char> {
        if self.running {
            self.input
        } else {
            self.input.take(self.input_cursor) + "▎"@ + self.input.skip(self.input_cursor)
        }
    }

    /// The lines of the input box, before wrapping.
    pub open spec fn input_lines(self) -> Seq<Seq<SpanModel>> {
        let parts = text::split_at_char(self.input_text(), '\n');
        Seq::new(parts.len(), |i: int| seq![SpanModel { text: parts[i], style: Style::plain() }])
    }

    /// The line that the view starts at when it follows the end.
    pub open spec fn bottom(total: int, height: int) -> int {
        if total >= height {
            total - height
        } else {
            0
        }
    }

    /// The line that the view starts at.
    pub open spec fn view_start(self, total: int, height: int) -> int {
        match self.scroll {
            Some(n) => if total == 0 {
                0
            } else if n <= total - 1 {
                n as int
            } else {
                total - 1
            },
            None => AppModel::bottom(total, height),
        }
    }
}

fn add_lines(out: &mut Vec<Vec<Span>>, more: Vec<Vec<Span>>)
    ensures
        markup::line_models(final(out)@) == markup::line_models(old(out)@) + markup::line_models(
            more@,
        ),
{
    let mut rest = more;
    out.append(&mut rest);
    assert(markup::line_models(out@) =~= markup::line_models(old(out)@) + markup::line_models(
        more@,
    ));
}

fn plain_line(s: String, style: Style) -> (r: Vec<Span>)
    ensures
        markup::span_models(r@) == seq![SpanModel { text: s@, style }],
{
    let mut r: Vec<Span> = Vec::new();
    r.push(Span { text: s, style });
    assert(markup::span_models(r@) =~= seq![SpanModel { text: s@, style }]);
    r
}

fn lines_of_content(s: &str) -> (r: Vec<Vec<Span>>)
    ensures
        markup::line_models(r@) == content_lines(s@),
{
    let mut out: Vec<Vec<Span>> = Vec::new();
    if text::char_count(s) == 0 {
        assert(markup::line_models(out@) =~= content_lines(s@));
        return out;
    }
    let style = Style::none().with_fg(Color::White);
    let parts = text::split(s, '\n');
    let ghost all = content_lines(s@);
    let mut i: usize = 0;
    while i < parts.len()
        invariant
            s@.len() > 0,
            style == Style::plain().colored(Color::White),
            text::views(parts@) == text::split_at_char(s@, '\n'),
            all == content_lines(s@),
            i <= parts@.len() == all.len(),
            markup::line_models(out@) =~= all.take(i as int),
        decreases parts@.len() - i,
    {
        let mut spans = if i == 0 {
            plain_line(text::copy_text("拾光者: "), style.with_bold())
        } else {
            plain_line(text::copy_text("  "), Style::none())
        };
        let ghost head = markup::span_models(spans@);
        let mut body = markup::md_line(parts[i].as_str(), style);
        let ghost body_models = markup::span_models(body@);
        spans.append(&mut body);
        let ghost before = out@;
        out.push(spans);
        proof {
            assert(text::views(parts@)[i as int] == parts@[i as int]@);
            assert(markup::span_models(spans@) =~= head + body_models);
            assert(markup::span_models(spans@) =~= all[i as int]);
            assert(markup::line_models(out@) =~= markup::line_models(before).push(
                markup::span_models(spans@),
            ));
            assert(all.take(i + 1) =~= all.take(i as int).push(all[i as int]));
        }
        i = i + 1;
    }
    assert(all.take(all.len() as int) =~= all);
    out
}

impl App {
    /// All lines of the conversation, before wrapping.
    pub fn chat(&self) -> (r: Vec<Vec<Span>>)
        ensures
            markup::line_models(r@) == self@.chat_lines(),
    {
        let mut out: Vec<Vec<Span>> = Vec::new();
        let ghost all = self@.log;
        let mut i: usize = 0;
        assert(markup::line_models(out@) =~= log_lines(all.take(0)));
        while i < self.log.len()
            invariant
                i <= self.log@.len(),
                all == self@.log,
                markup::line_models(out@) == log_lines(all.take(i as int)),
            decreases self.log@.len() - i,
        {
            add_lines(&mut out, LogLine::render(&self.log[i]));
            proof {
                assert(all.take(i + 1).drop_last() =~= all.take(i as int));
                assert(all.take(i + 1).last() == self.log@[i as int]@);
            }
            i = i + 1;
        }
        assert(all.take(all.len() as int) =~= all);
        if text::char_count(self.cur_reasoning.as_str()) > 0 {
            let mut s = text::copy_text("💭 ");
            s.append(self.cur_reasoning.as_str());
            let ghost before = out@;
            let line = plain_line(s, Style::none().with_fg(Color::DarkGray).with_dim());
            out.push(line);
            assert(markup::line_models(out@) =~= markup::line_models(before).push(
                markup::span_models(line@),
            ));
            assert(markup::line_models(out@) =~= markup::line_models(before) + reasoning_lines(
                self.cur_reasoning@,
            ));
        } else {
            assert(markup::line_models(out@) =~= markup::line_models(out@) + reasoning_lines(
                self.cur_reasoning@,
            ));
        }
        add_lines(&mut out, lines_of_content(self.cur_content.as_str()));
        out
    }

    /// The lines of the input box, wrapped.
    pub fn input_box(&self, width: usize) -> (r: Vec<Vec<Span>>)
        requires
            self@.valid(),
        ensures
            markup::line_models(r@) == markup::wrapped(self@.input_lines(), width as nat),
    {
        let v = text::chars_of(self.input.as_str());
        let mut full = text::text_between(&v, 0, self.input_cursor);
        if !self.running {
            full.append("▎");
        }
        full.append(text::text_between(&v, self.input_cursor, v.len()).as_str());
        proof {
            assert(v@.subrange(0, self.input_cursor as int) =~= v@.take(self.input_cursor as int));
            assert(v@.subrange(self.input_cursor as int, v@.len() as int) =~= v@.skip(
                self.input_cursor as int,
            ));
            if self.running {
                assert(full@ =~= self@.input);
            }
            assert(full@ =~= self@.input_text());
        }
        let parts = text::split(full.as_str(), '\n');
        let ghost all = self@.input_lines();
        let mut lines: Vec<Vec<Span>> = Vec::new();
        let mut i: usize = 0;
        while i < parts.len()
            invariant
                text::views(parts@) == text::split_at_char(self@.input_text(), '\n'),
                all == self@.input_lines(),
                i <= parts@.len() == all.len(),
                markup::line_models(lines@) =~= all.take(i as int),
            decreases parts@.len() - i,
        {
            let line = plain_line(text::copy_text(parts[i].as_str()), Style::none());
            let ghost before = lines@;
            lines.push(line);
            proof {
                assert(text::views(parts@)[i as int] == parts@[i as int]@);
                assert(markup::span_models(line@) =~= all[i as int]);
                assert(markup::line_models(lines@) =~= markup::line_models(before).push(
                    markup::span_models(line@),
                ));
                assert(all.take(i + 1) =~= all.take(i as int).push(all[i as int]));
            }
            i = i + 1;
        }
        assert(all.take(all.len() as int) =~= all);
        markup::wrap_lines(&lines, width)
    }

    /// Notes where the end is and says where the view starts, for so many lines on a screen of a
    /// height.
    pub fn follow(&mut self, total: usize, height: usize) -> (start: usize)
        ensures
            start == old(self)@.view_start(total as int, height as int),
            final(self)@ == (AppModel {
                bottom_scroll: AppModel::bottom(total as int, height as int) as usize,
                ..old(self)@
            }),
            total > 0 ==> start < total || height == 0,
    {
        let bottom = total.saturating_sub(height);
        self.bottom_scroll = bottom;
        match self.scroll {
            Some(n) => {
                let last = total.saturating_sub(1);
                if n <= last {
                    n
                } else {
                    last
                }
            },
            None => bottom,
        }
    }

    /// The status line; `cost` is what the tokens have cost, with four decimals.
    pub fn status(&self, cost: &str) -> (r: String)
        ensures
            r@ == status_text(self@, cost@),
    {
        let mut s = text::copy_text(" 拾光者 | ");
        s.append(self.model.as_str());
        s.append(" | ");
        s.append(phase::phase_name(self.phase).as_str());
        s.append(" | ");
        if self.running {
            s.append("生成中…");
        } else {
            s.append("就绪");
        }
        s.append(" | tokens in·out·total = ");
        s.append(text::number(self.usage.prompt_tokens).as_str());
        s.append("·");
        s.append(text::number(self.usage.completion_tokens).as_str());
        s.append("·");
        s.append(text::number(self.usage.total_tokens).as_str());
        s.append(" | ¥");
        s.append(cost);
        s.append(" ");
        s
    }

    /// What the input box says above the input.
    pub fn prompt(&self) -> (r: &'static str)
        ensures
            r@ == (if self@.running {
                "(生成中，新输入已禁用)> "@
            } else {
                "输入消息，回车发送 / Ctrl-Enter 换行> "@
            }),
    {
        if self.running {
            "(生成中，新输入已禁用)> "
        } else {
            "输入消息，回车发送 / Ctrl-Enter 换行> "
        }
    }

    /// The title of the conversation.
    pub fn title(&self) -> (r: &'static str)
        ensures
            r@ == (if self@.scroll is Some {
                "对话（手动滚动中，End 回到底部）"@
            } else {
                "对话（Ctrl-C 取消 / Ctrl-L 切会话 / Ctrl-Q 退出）"@
            }),
    {
        if self.scroll.is_some() {
            "对话（手动滚动中，End 回到底部）"
        } else {
            "对话（Ctrl-C 取消 / Ctrl-L 切会话 / Ctrl-Q 退出）"
        }
    }
}

pub open spec fn status_text(app: AppModel, cost: Seq<char>) -> Seq<char> {
    " 拾光者 | "@ + app.model + " | "@ + phase::phase_title(app.phase) + " | "@ + (if app.running {
        "生成中…"@
    } else {
        "就绪"@
    }) + " | tokens in·out·total = "@ + text::dec(app.usage.prompt_tokens as nat) + "·"@
        + text::dec(app.usage.completion_tokens as nat) + "·"@ + text::dec(
        app.usage.total_tokens as nat,
    ) + " | ¥"@ + cost + " "@
}

/// The height of the input box for so many wrapped lines: a line above them, at least one of them,
/// and the border, counted in sixteen bits.
pub fn input_height(rows: usize) -> (h: u16)
    ensures
        h == ((if rows == 0 {
            1
        } else {
            rows as int
        }) + 3) % 65536,
{
    let shown: usize = if rows == 0 {
        1
    } else {
        rows
    };
    ((shown % 65536 + 3) % 65536) as u16
}

// ---- Choosing a session ----

/// How long ago a time was, in whole seconds; `None` for a time that has not come.
pub open spec fn seconds_since(t: Timestamp, now: Timestamp) -> Option<int> {
    if now.secs < t.secs || (now.secs == t.secs && now.nanos < t.nanos) {
        None
    } else if now.nanos < t.nanos {
        Some(now.secs - t.secs - 1)
    } else {
        Some(now.secs - t.secs)
    }
}

/// How long ago a time was, in words.
pub open spec fn ago_text(t: Option<Timestamp>, now: Timestamp) -> Seq<char> {
    match t {
        None => "未知时间"@,
        Some(t) => match seconds_since(t, now) {
            None => "未知时间"@,
            Some(s) => if s < 60 {
                "刚刚"@
            } else if s < 3600 {
                text::dec((s / 60) as nat) + " 分钟前"@
            } else if s < 86400 {
                text::dec((s / 3600) as nat) + " 小时前"@
            } else {
                text::dec((s / 86400) as nat) + " 天前"@
            },
        },
    }
}

/// How long before `now` a time was.
pub fn ago_at(t: &Option<Timestamp>, now: Timestamp) -> (r: String)
    ensures
        r@ == ago_text(*t, now),
{
    match t {
        None => text::copy_text("未知时间"),
        Some(t) => {
            if now.secs < t.secs || (now.secs == t.secs && now.nanos < t.nanos) {
                return text::copy_text("未知时间");
            }
            let s: u64 = if now.nanos < t.nanos {
                now.secs - t.secs - 1
            } else {
                now.secs - t.secs
            };
            if s < 60 {
                text::copy_text("刚刚")
            } else if s < 3600 {
                let mut r = text::number(s / 60);
                r.append(" 分钟前");
                r
            } else if s < 86400 {
                let mut r = text::number(s / 3600);
                r.append(" 小时前");
                r
            } else {
                let mut r = text::number(s / 86400);
                r.append(" 天前");
                r
            }
        },
    }
}

/// How long ago a time was.
pub fn ago(t: &Option<Timestamp>) -> (r: String)
    ensures
        exists|now: Timestamp| r@ == #[trigger] ago_text(*t, now),
{
    let now = clock::now();
    ago_at(t, now)
}

/// The id of a session that is opened at a number of seconds since the start of 1970: date and time
/// of day, such as `20260829-143022`.
pub open spec fn session_id_text(secs: int) -> Seq<char> {
    let (y, m, d) = calendar::civil(secs / 86400);
    let s = secs % 86400;
    calendar::year_text(y) + text::padded_dec(m as nat, 2) + text::padded_dec(d as nat, 2) + "-"@
        + text::padded_dec((s / 3600) as nat, 2) + text::padded_dec(((s % 3600) / 60) as nat, 2)
        + text::padded_dec((s % 60) as nat, 2)
}

pub fn session_id_at(secs: u64) -> (r: String)
    ensures
        r@ == session_id_text(secs as int),
{
    let days: u64 = secs / 86400;
    let s: u64 = secs % 86400;
    let (y, m, d) = calendar::civil_from_days(days as i64);
    let mut r = String::new();
    if y < 0 {
        r.push('-');
        r.append(text::padded_number((-y) as u64, 3).as_str());
    } else {
        r.append(text::padded_number(y as u64, 4).as_str());
    }
    assert(r@ =~= calendar::year_text(y as int));
    r.append(text::padded_number(m as u64, 2).as_str());
    r.append(text::padded_number(d as u64, 2).as_str());
    r.append("-");
    r.append(text::padded_number(s / 3600, 2).as_str());
    r.append(text::padded_number((s % 3600) / 60, 2).as_str());
    r.append(text::padded_number(s % 60, 2).as_str());
    r
}

/// The id of a session that is opened now.
pub fn new_session_id() -> (r: String)
    ensures
        exists|secs: int| r@ == #[trigger] session_id_text(secs) && secs >= 0,
{
    let secs = clock::now().secs;
    let r = session_id_at(secs);
    assert(r@ == session_id_text(secs as int));
    r
}

/// The page on which a session is chosen.
pub struct Picker {
    pub metas: Vec<SessionMeta>,
    /// The chosen line; the one behind the sessions opens a new one.
    pub selected: usize,
    /// The session that is to be deleted, once that is confirmed.
    pub confirm_delete: Option<String>,
    /// The session that is being renamed, and its name so far.
    pub renaming: Option<(String, String)>,
}

pub struct PickerModel {
    pub metas: Seq<SessionMetaModel>,
    pub selected: int,
    pub confirm_delete: Option<Seq<char>>,
    pub renaming: Option<(Seq<char>, Seq<char>)>,
}

impl View for Picker {
    type V = PickerModel;

    open spec fn view(&self) -> PickerModel {
        PickerModel {
            metas: crate::session::meta_models(self.metas@),
            selected: self.selected as int,
            confirm_delete: llm::opt_text(self.confirm_delete),
            renaming: match self.renaming {
                Some(r) => Some((r.0@, r.1@)),
                None => None,
            },
        }
    }
}

/// What a key on the page asks for.
pub enum PickAction {
    Stay,
    /// The session is to be renamed, where there is a name, and the list read again.
    Rename { id: String, name: Option<String> },
    /// The session is to be deleted and the list read again.
    Delete(String),
    Open(String),
    OpenNew,
    Leave,
}

pub enum PickActionModel {
    Stay,
    Rename { id: Seq<char>, name: Option<Seq<char>> },
    Delete(Seq<char>),
    Open(Seq<char>),
    OpenNew,
    Leave,
}

impl View for PickAction {
    type V = PickActionModel;

    open spec fn view(&self) -> PickActionModel {
        match *self {
            PickAction::Stay => PickActionModel::Stay,
            PickAction::Rename { id, name } => PickActionModel::Rename {
                id: id@,
                name: llm::opt_text(name),
            },
            PickAction::Delete(id) => PickActionModel::Delete(id@),
            PickAction::Open(id) => PickActionModel::Open(id@),
            PickAction::OpenNew => PickActionModel::OpenNew,
            PickAction::Leave => PickActionModel::Leave,
        }
    }
}

/// The name that a session is shown under.
pub open spec fn shown_name(m: SessionMetaModel) -> Seq<char> {
    match m.name {
        Some(n) => n,
        None => m.id,
    }
}

impl PickerModel {
    /// How many lines there are to choose from.
    pub open spec fn total(self) -> int {
        self.metas.len() as int + 1
    }

    /// A key while a session is being renamed.
    pub open spec fn renamed(self, id: Seq<char>, buf: Seq<char>, code: KeyCode) -> (
        PickerModel,
        PickActionModel,
    ) {
        match code {
            KeyCode::Enter => (
                PickerModel { renaming: None, ..self },
                PickActionModel::Rename {
                    id,
                    name: if text::trimmed(buf).len() == 0 {
                        None
                    } else {
                        Some(text::trimmed(buf))
                    },
                },
            ),
            KeyCode::Esc => (PickerModel { renaming: None, ..self }, PickActionModel::Stay),
            KeyCode::Backspace => (
                PickerModel {
                    renaming: Some(
                        (
                            id,
                            if buf.len() == 0 {
                                buf
                            } else {
                                buf.drop_last()
                            },
                        ),
                    ),
                    ..self
                },
                PickActionModel::Stay,
            ),
            KeyCode::Char(c) => (
                PickerModel { renaming: Some((id, buf.push(c))), ..self },
                PickActionModel::Stay,
            ),
            _ => (self, PickActionModel::Stay),
        }
    }

    /// A key while a session is being chosen.
    pub open spec fn chosen(self, code: KeyCode) -> (PickerModel, PickActionModel) {
        let on_session = self.selected < self.metas.len();
        match code {
            KeyCode::Down => (
                PickerModel { selected: (self.selected + 1) % self.total(), ..self },
                PickActionModel::Stay,
            ),
            KeyCode::Up => (
                PickerModel { selected: (self.selected + self.total() - 1) % self.total(), ..self },
                PickActionModel::Stay,
            ),
            KeyCode::Enter => (
                self,
                if on_session {
                    PickActionModel::Open(self.metas[self.selected].id)
                } else {
                    PickActionModel::OpenNew
                },
            ),
            KeyCode::Char(c) => if c == 'n' {
                (self, PickActionModel::OpenNew)
            } else if c == 'd' && on_session {
                (
                    PickerModel { confirm_delete: Some(self.metas[self.selected].id), ..self },
                    PickActionModel::Stay,
                )
            } else if c == 'r' && on_session {
                let m = self.metas[self.selected];
                (
                    PickerModel { renaming: Some((m.id, shown_name(m))), ..self },
                    PickActionModel::Stay,
                )
            } else if c == 'q' {
                (self, PickActionModel::Leave)
            } else {
                (self, PickActionModel::Stay)
            },
            KeyCode::Esc => (self, PickActionModel::Leave),
            _ => (self, PickActionModel::Stay),
        }
    }

    /// The state after a key, and what the key asks for.
    pub open spec fn pressed(self, code: KeyCode) -> (PickerModel, PickActionModel) {
        match self.renaming {
            Some((id, buf)) => self.renamed(id, buf, code),
            None => match self.confirm_delete {
                Some(id) => (
                    PickerModel { confirm_delete: None, ..self },
                    if code == KeyCode::Char('y') || code == KeyCode::Char('Y') {
                        PickActionModel::Delete(id)
                    } else {
                        PickActionModel::Stay
                    },
                ),
                None => self.chosen(code),
            },
        }
    }
}

impl Picker {
    pub fn new(metas: Vec<SessionMeta>) -> (p: Picker)
        ensures
            p@ == (PickerModel {
                metas: crate::session::meta_models(metas@),
                selected: 0,
                confirm_delete: None,
                renaming: None,
            }),
    {
        Picker { metas, selected: 0, confirm_delete: None, renaming: None }
    }

    /// Shows a list that has been read again.
    pub fn reload(&mut self, metas: Vec<SessionMeta>)
        ensures
            final(self)@ == (PickerModel {
                metas: crate::session::meta_models(metas@),
                ..old(self)@
            }),
    {
        self.metas = metas;
    }

    fn key_renaming(&mut self, code: KeyCode) -> (action: PickAction)
        requires
            old(self).renaming is Some,
        ensures
            (final(self)@, action@) == old(self)@.renamed(
                old(self)@.renaming->Some_0.0,
                old(self)@.renaming->Some_0.1,
                code,
            ),
    {
        let (id, buf) = match &self.renaming {
            Some(r) => (text::copy_text(r.0.as_str()), text::copy_text(r.1.as_str())),
            None => (String::new(), String::new()),
        };
        match code {
            KeyCode::Enter => {
                self.renaming = None;
                let name = text::trim(buf.as_str());
                if text::char_count(name.as_str()) == 0 {
                    PickAction::Rename { id, name: None }
                } else {
                    PickAction::Rename { id, name: Some(name) }
                }
            },
            KeyCode::Esc => {
                self.renaming = None;
                PickAction::Stay
            },
            KeyCode::Backspace => {
                let v = text::chars_of(buf.as_str());
                if v.len() > 0 {
                    let shorter = text::text_between(&v, 0, v.len() - 1);
                    assert(shorter@ =~= buf@.drop_last());
                    self.renaming = Some((id, shorter));
                }
                PickAction::Stay
            },
            KeyCode::Char(c) => {
                let mut longer = buf;
                longer.push(c);
                self.renaming = Some((id, longer));
                PickAction::Stay
            },
            _ => PickAction::Stay,
        }
    }

    fn key_choosing(&mut self, code: KeyCode) -> (action: PickAction)
        requires
            old(self).selected < usize::MAX - old(self).metas@.len(),
        ensures
            (final(self)@, action@) == old(self)@.chosen(code),
    {
        assert(self@.metas.len() == self.metas@.len());
        let total = self.metas.len() + 1;
        match code {
            KeyCode::Down => {
                self.selected = (self.selected + 1) % total;
                PickAction::Stay
            },
            KeyCode::Up => {
                self.selected = (self.selected + total - 1) % total;
                PickAction::Stay
            },
            KeyCode::Enter => {
                if self.selected < self.metas.len() {
                    PickAction::Open(text::copy_text(self.metas[self.selected].id.as_str()))
                } else {
                    PickAction::OpenNew
                }
            },
            KeyCode::Char(c) => {
                if c == 'n' {
                    PickAction::OpenNew
                } else if c == 'd' && self.selected < self.metas.len() {
                    self.confirm_delete = Some(
                        text::copy_text(self.metas[self.selected].id.as_str()),
                    );
                    PickAction::Stay
                } else if c == 'r' && self.selected < self.metas.len() {
                    let id = text::copy_text(self.metas[self.selected].id.as_str());
                    let name = match &self.metas[self.selected].name {
                        Some(n) => text::copy_text(n.as_str()),
                        None => text::copy_text(self.metas[self.selected].id.as_str()),
                    };
                    self.renaming = Some((id, name));
                    PickAction::Stay
                } else if c == 'q' {
                    PickAction::Leave
                } else {
                    PickAction::Stay
                }
            },
            KeyCode::Esc => PickAction::Leave,
            _ => PickAction::Stay,
        }
    }

    /// Takes a key in.
    pub fn key(&mut self, code: KeyCode) -> (action: PickAction)
        requires
            old(self).selected < usize::MAX - old(self).metas@.len(),
        ensures
            (final(self)@, action@) == old(self)@.pressed(code),
    {
        if self.renaming.is_some() {
            return self.key_renaming(code);
        }
        if self.confirm_delete.is_some() {
            let id = match &self.confirm_delete {
                Some(id) => text::copy_text(id.as_str()),
                None => String::new(),
            };
            self.confirm_delete = None;
            return if code == KeyCode::Char('y') || code == KeyCode::Char('Y') {
                PickAction::Delete(id)
            } else {
                PickAction::Stay
            };
        }
        self.key_choosing(code)
    }
}

/// Moving stays within the lines, and moving down undoes moving up.
pub proof fn law_moving_stays_on_the_page(p: PickerModel)
    requires
        p.renaming is None,
        p.confirm_delete is None,
        0 <= p.selected < p.total(),
    ensures
        0 <= p.pressed(KeyCode::Down).0.selected < p.total(),
        0 <= p.pressed(KeyCode::Up).0.selected < p.total(),
        p.pressed(KeyCode::Up).0.pressed(KeyCode::Down).0 == p,
        p.pressed(KeyCode::Down).0.pressed(KeyCode::Up).0 == p,
{
    let n = p.total();
    let s = p.selected;
    if s + 1 < n {
        vstd::arithmetic::div_mod::lemma_small_mod((s + 1) as nat, n as nat);
    } else {
        vstd::arithmetic::div_mod::lemma_mod_self_0(n);
    }
    if s > 0 {
        vstd::arithmetic::div_mod::lemma_mod_add_multiples_vanish(s - 1, n);
        vstd::arithmetic::div_mod::lemma_small_mod((s - 1) as nat, n as nat);
    } else {
        vstd::arithmetic::div_mod::lemma_small_mod((n - 1) as nat, n as nat);
    }
    let up = p.pressed(KeyCode::Up).0;
    let down = p.pressed(KeyCode::Down).0;
    assert(up.selected == (if s > 0 {
        s - 1
    } else {
        n - 1
    }));
    assert(down.selected == (if s + 1 < n {
        s + 1
    } else {
        0
    }));
    if s > 0 {
        vstd::arithmetic::div_mod::lemma_small_mod(s as nat, n as nat);
    } else {
        vstd::arithmetic::div_mod::lemma_mod_self_0(n);
    }
    if s + 1 < n {
        vstd::arithmetic::div_mod::lemma_mod_add_multiples_vanish(s, n);
        vstd::arithmetic::div_mod::lemma_small_mod(s as nat, n as nat);
    } else {
        vstd::arithmetic::div_mod::lemma_small_mod((n - 1) as nat, n as nat);
    }
}

/// A session is deleted only when that was asked for and confirmed.
pub proof fn law_deleting_is_confirmed(p: PickerModel, code: KeyCode)
    ensures
        p.pressed(code).1 matches PickActionModel::Delete(id) ==> p.confirm_delete == Some(id) && (
        code == KeyCode::Char('y') || code == KeyCode::Char('Y')),
{
}

/// What is said of a session behind its name.
pub open spec fn meta_text(m: SessionMetaModel, now: Timestamp) -> Seq<char> {
    "  "@ + text::dec(m.messages) + " 条消息 · tokens in·out·total="@ + text::dec(
        m.usage.prompt_tokens as nat,
    ) + "·"@ + text::dec(m.usage.completion_tokens as nat) + "·"@ + text::dec(
        m.usage.total_tokens as nat,
    ) + " · "@ + ago_text(m.updated_at, now)
}

/// The line of a session: its name, and what is said of it.
pub fn session_line(m: &SessionMeta, now: Timestamp) -> (r: (String, String))
    ensures
        r.0@ == " "@ + shown_name(m@) + " "@,
        r.1@ == meta_text(m@, now),
{
    let mut name = text::copy_text(" ");
    match &m.name {
        Some(n) => name.append(n.as_str()),
        None => name.append(m.id.as_str()),
    }
    name.append(" ");
    let mut s = text::copy_text("  ");
    s.append(text::number(m.messages as u64).as_str());
    s.append(" 条消息 · tokens in·out·total=");
    s.append(text::number(m.prompt_tokens).as_str());
    s.append("·");
    s.append(text::number(m.completion_tokens).as_str());
    s.append("·");
    s.append(text::number(m.total_tokens).as_str());
    s.append(" · ");
    s.append(ago_at(&m.updated_at, now).as_str());
    (name, s)
}

/// The name that the session with an id is shown under; an id that is not listed stands for itself.
pub open spec fn name_of(metas: Seq<SessionMetaModel>, id: Seq<char>) -> Seq<char>
    decreases metas.len(),
{
    if metas.len() == 0 {
        id
    } else if metas[0].id == id {
        shown_name(metas[0])
    } else {
        name_of(metas.skip(1), id)
    }
}

impl Picker {
    fn display_name(&self, id: &str) -> (r: String)
        ensures
            r@ == name_of(self@.metas, id@),
    {
        let ghost all = self@.metas;
        let mut i: usize = 0;
        assert(all.skip(0) =~= all);
        while i < self.metas.len()
            invariant
                i <= self.metas@.len(),
                all == self@.metas,
                name_of(all, id@) == name_of(all.skip(i as int), id@),
            decreases self.metas@.len() - i,
        {
            let m = &self.metas[i];
            proof {
                assert(all.skip(i as int)[0] == m@);
                assert(all.skip(i as int).skip(1) =~= all.skip(i + 1));
            }
            if text::same(m.id.as_str(), id) {
                return match &m.name {
                    Some(n) => text::copy_text(n.as_str()),
                    None => text::copy_text(m.id.as_str()),
                };
            }
            i = i + 1;
        }
        text::copy_text(id)
    }

    /// What is asked in place of the list, while something is being asked.
    pub fn question(&self) -> (r: Option<String>)
        ensures
            llm::opt_text(r) == question_text(self@),
    {
        match &self.renaming {
            Some(r) => {
                let mut s = text::copy_text(" 重命名「");
                s.append(self.display_name(r.0.as_str()).as_str());
                s.append("」\n 输入新名称（可中文）: ");
                s.append(r.1.as_str());
                s.append("▎\n Enter 确认 / Esc 取消");
                Some(s)
            },
            None => match &self.confirm_delete {
                Some(id) => {
                    let mut s = text::copy_text(" 确认删除「");
                    s.append(self.display_name(id.as_str()).as_str());
                    s.append("」？y 删除 / 其他键取消");
                    Some(s)
                },
                None => None,
            },
        }
    }
}

pub open spec fn question_text(p: PickerModel) -> Option<Seq<char>> {
    match p.renaming {
        Some((id, buf)) => Some(
            " 重命名「"@ + name_of(p.metas, id) + "」\n 输入新名称（可中文）: "@ + buf
                + "▎\n Enter 确认 / Esc 取消"@,
        ),
        None => match p.confirm_delete {
            Some(id) => Some(
                " 确认删除「"@ + name_of(p.metas, id) + "」？y 删除 / 其他键取消"@,
            ),
            None => None,
        },
    }
}

// ---- What the screen shows ----

/// The chat shows the log, then the thoughts, then what is coming in.
pub proof fn law_the_chat_is_shown_in_order(
    app: AppModel,
    log: Seq<LogLineModel>,
    entry: LogLineModel,
    s: Seq<char>,
)
    ensures
        app.chat_lines() == log_lines(app.log) + reasoning_lines(app.cur_reasoning) + content_lines(
            app.cur_content,
        ),
        log_lines(Seq::empty()).len() == 0,
        log_lines(log.push(entry)) == log_lines(log) + markup::entry_lines(entry),
        reasoning_lines(Seq::empty()).len() == 0,
        s.len() > 0 ==> reasoning_lines(s) == seq![
            seq![
                SpanModel {
                    text: "💭 "@ + s,
                    style: Style { fg: Some(Color::DarkGray), bold: false, italic: false, dim: true },
                },
            ],
        ],
        content_lines(Seq::empty()).len() == 0,
        s.len() > 0 ==> content_lines(s) == markup::entry_lines(
            LogLineModel { role: markup::Role::Assistant, text: s },
        ),
{
    assert(log.push(entry).drop_last() =~= log);
    if s.len() > 0 {
        let parts = text::split_at_char(s, '\n');
        reveal_strlit("拾光者: ");
        reveal_strlit("拾光者");
        reveal_strlit(": ");
        assert("拾光者: "@ =~= "拾光者"@ + ": "@);
        assert forall|i: int| 0 <= i < parts.len() implies #[trigger] content_lines(s)[i]
            == markup::entry_lines(LogLineModel { role: markup::Role::Assistant, text: s })[i] by {}
        assert(content_lines(s) =~= markup::entry_lines(
            LogLineModel { role: markup::Role::Assistant, text: s },
        ));
    }
}

/// The line of input shows where the cursor stands, unless something runs.
pub proof fn law_the_cursor_is_shown(app: AppModel, i: int)
    ensures
        app.running ==> app.input_text() == app.input,
        !app.running ==> app.input_text() == app.input.take(app.input_cursor) + "▎"@ + app.input.skip(
            app.input_cursor,
        ),
        app.input_lines().len() == text::split_at_char(app.input_text(), '\n').len(),
        0 <= i < app.input_lines().len() ==> app.input_lines()[i] == seq![
            SpanModel {
                text: text::split_at_char(app.input_text(), '\n')[i],
                style: Style { fg: None, bold: false, italic: false, dim: false },
            },
        ],
{
}

/// The view follows the end of the text, so that the last line is the last on the screen; where it was
/// scrolled it begins there, or at the last line.
pub proof fn law_the_view_follows_the_end(app: AppModel, total: int, height: int)
    requires
        0 <= total,
        0 <= height,
    ensures
        app.scroll is None && total >= height ==> app.view_start(total, height) + height == total,
        app.scroll is None && total < height ==> app.view_start(total, height) == 0,
        total == 0 ==> app.view_start(total, height) == 0,
        app.scroll matches Some(n) ==> (n < total ==> app.view_start(total, height) == n),
        app.scroll matches Some(n) ==> (0 < total <= n ==> app.view_start(total, height) == total - 1),
{
}

/// The state line tells the model, the stage, whether something runs, the counts and the cost.
pub proof fn law_the_state_is_told(app: AppModel, cost: Seq<char>)
    ensures
        ({
            let counts = text::dec(app.usage.prompt_tokens as nat) + "·"@ + text::dec(
                app.usage.completion_tokens as nat,
            ) + "·"@ + text::dec(app.usage.total_tokens as nat);
            let head = " 拾光者 | "@ + app.model + " | "@ + phase::phase_title(app.phase) + " | "@;
            &&& app.running ==> status_text(app, cost) =~= head + "生成中…"@
                + " | tokens in·out·total = "@ + counts + " | ¥"@ + cost + " "@
            &&& !app.running ==> status_text(app, cost) =~= head + "就绪"@
                + " | tokens in·out·total = "@ + counts + " | ¥"@ + cost + " "@
        }),
{
}

/// The whole seconds between two times are counted, and none where the second is before the first.
pub proof fn law_seconds_are_whole(t: Timestamp, now: Timestamp)
    requires
        t.nanos < 1_000_000_000,
        now.nanos < 1_000_000_000,
    ensures
        ({
            let passed = (now.secs - t.secs) * 1_000_000_000 + (now.nanos - t.nanos);
            &&& passed < 0 <==> seconds_since(t, now) is None
            &&& seconds_since(t, now) matches Some(s) ==> s * 1_000_000_000 <= passed < (s + 1)
                * 1_000_000_000
        }),
{
}

/// How long ago something was is told in the largest whole unit: not at all within a minute, then in
/// minutes, hours and days.
pub proof fn law_times_are_told_in_whole_units(t: Timestamp, now: Timestamp, n: int)
    ensures
        ago_text(None, now) == "未知时间"@,
        seconds_since(t, now) is None ==> ago_text(Some(t), now) == "未知时间"@,
        seconds_since(t, now) matches Some(s) ==> {
            &&& s < 60 ==> ago_text(Some(t), now) == "刚刚"@
            &&& 1 <= n < 60 && 60 * n <= s < 60 * (n + 1) ==> ago_text(Some(t), now) == text::dec(
                n as nat,
            ) + " 分钟前"@
            &&& 1 <= n < 24 && 3600 * n <= s < 3600 * (n + 1) ==> ago_text(Some(t), now) == text::dec(
                n as nat,
            ) + " 小时前"@
            &&& 1 <= n && 86400 * n <= s < 86400 * (n + 1) ==> ago_text(Some(t), now) == text::dec(
                n as nat,
            ) + " 天前"@
        },
{
}

/// A session is called by the day and the time of its start.
pub proof fn law_sessions_are_called_by_their_start(day: int, hour: int, minute: int, second: int)
    requires
        0 <= hour < 24,
        0 <= minute < 60,
        0 <= second < 60,
    ensures
        session_id_text(day * 86400 + hour * 3600 + minute * 60 + second) == calendar::year_text(
            calendar::civil(day).0,
        ) + text::padded_dec(calendar::civil(day).1 as nat, 2) + text::padded_dec(
            calendar::civil(day).2 as nat,
            2,
        ) + "-"@ + text::padded_dec(hour as nat, 2) + text::padded_dec(minute as nat, 2)
            + text::padded_dec(second as nat, 2),
{
    let secs = day * 86400 + hour * 3600 + minute * 60 + second;
    assert(secs / 86400 == day && secs % 86400 == hour * 3600 + minute * 60 + second);
}

/// On the page of sessions the arrows go round, the enter key opens what is chosen, `n` a new session,
/// `d` asks before deleting, `r` begins a new name with the one shown, and `q` and Esc leave.
pub proof fn law_keys_choose_a_session(p: PickerModel, c: char)
    requires
        p.renaming is None,
        p.confirm_delete is None,
        0 <= p.selected < p.total(),
    ensures
        ({
            let n = p.metas.len() as int;
            let on = p.selected < n;
            let down = p.pressed(KeyCode::Down).0;
            let typed = p.pressed(KeyCode::Char(c));
            &&& p.total() == n + 1
            &&& on ==> down == (PickerModel { selected: p.selected + 1, ..p })
            &&& !on ==> down == (PickerModel { selected: 0, ..p })
            &&& p.selected > 0 ==> p.pressed(KeyCode::Up).0 == (PickerModel {
                selected: p.selected - 1,
                ..p
            })
            &&& p.selected == 0 ==> p.pressed(KeyCode::Up).0 == (PickerModel { selected: n, ..p })
            &&& p.pressed(KeyCode::Down).1 == PickActionModel::Stay
            &&& p.pressed(KeyCode::Up).1 == PickActionModel::Stay
            &&& on ==> p.pressed(KeyCode::Enter) == (
                p,
                PickActionModel::Open(p.metas[p.selected].id),
            )
            &&& !on ==> p.pressed(KeyCode::Enter) == (p, PickActionModel::OpenNew)
            &&& p.pressed(KeyCode::Esc) == (p, PickActionModel::Leave)
            &&& c == 'n' ==> typed == (p, PickActionModel::OpenNew)
            &&& c == 'q' ==> typed == (p, PickActionModel::Leave)
            &&& c == 'd' && on ==> typed == (
                PickerModel { confirm_delete: Some(p.metas[p.selected].id), ..p },
                PickActionModel::Stay,
            )
            &&& c == 'r' && on ==> typed == (
                PickerModel {
                    renaming: Some(
                        (
                            p.metas[p.selected].id,
                            match p.metas[p.selected].name {
                                Some(name) => name,
                                None => p.metas[p.selected].id,
                            },
                        ),
                    ),
                    ..p
                },
                PickActionModel::Stay,
            )
            &&& (c == 'd' || c == 'r') && !on ==> typed == (p, PickActionModel::Stay)
            &&& c != 'n' && c != 'q' && c != 'd' && c != 'r' ==> typed == (p, PickActionModel::Stay)
        }),
{
    let t = p.total();
    let k = p.selected;
    assert(k + 1 < t ==> (k + 1) % t == k + 1) by (nonlinear_arith)
        requires
            0 <= k < t,
    ;
    assert(k + 1 == t ==> (k + 1) % t == 0) by (nonlinear_arith)
        requires
            0 <= k < t,
    ;
    assert(k > 0 ==> (k + t - 1) % t == k - 1) by (nonlinear_arith)
        requires
            0 <= k < t,
    ;
    assert(k == 0 ==> (k + t - 1) % t == t - 1) by (nonlinear_arith)
        requires
            0 <= k < t,
    ;
}

/// A new name is typed and taken back character by character, taken without the white space around it,
/// and dropped with Esc; an empty one takes the name away. Whoever asked to delete and presses `y`
/// deletes that session, and any other key forgets the question.
pub proof fn law_names_and_questions_are_answered(
    p: PickerModel,
    id: Seq<char>,
    buf: Seq<char>,
    c: char,
)
    ensures
        p.renaming == Some((id, buf)) ==> {
            let blank = text::trimmed(buf).len() == 0;
            &&& p.pressed(KeyCode::Char(c)) == (
                PickerModel { renaming: Some((id, buf.push(c))), ..p },
                PickActionModel::Stay,
            )
            &&& buf.len() > 0 ==> p.pressed(KeyCode::Backspace) == (
                PickerModel { renaming: Some((id, buf.take(buf.len() - 1))), ..p },
                PickActionModel::Stay,
            )
            &&& buf.len() == 0 ==> p.pressed(KeyCode::Backspace) == (p, PickActionModel::Stay)
            &&& p.pressed(KeyCode::Esc) == (
                PickerModel { renaming: None, ..p },
                PickActionModel::Stay,
            )
            &&& p.pressed(KeyCode::Enter).0 == (PickerModel { renaming: None, ..p })
            &&& blank ==> p.pressed(KeyCode::Enter).1 == (PickActionModel::Rename { id, name: None })
            &&& !blank ==> p.pressed(KeyCode::Enter).1 == (PickActionModel::Rename {
                id,
                name: Some(text::trimmed(buf)),
            })
        },
        p.renaming is None && p.confirm_delete == Some(id) ==> {
            &&& p.pressed(KeyCode::Char(c)).0 == (PickerModel { confirm_delete: None, ..p })
            &&& c == 'y' || c == 'Y' ==> p.pressed(KeyCode::Char(c)).1 == PickActionModel::Delete(id)
            &&& c != 'y' && c != 'Y' ==> p.pressed(KeyCode::Char(c)).1 == PickActionModel::Stay
            &&& p.pressed(KeyCode::Enter) == (
                PickerModel { confirm_delete: None, ..p },
                PickActionModel::Stay,
            )
        },
{
    assert(buf.drop_last() =~= buf.take(buf.len() - 1));
}

proof fn lemma_name_of(metas: Seq<SessionMetaModel>, id: Seq<char>, i: int)
    requires
        0 <= i <= metas.len(),
        forall|j: int| 0 <= j < i ==> (#[trigger] metas[j]).id != id,
        i < metas.len() ==> metas[i].id == id,
    ensures
        i < metas.len() ==> name_of(metas, id) == shown_name(metas[i]),
        i == metas.len() ==> name_of(metas, id) == id,
    decreases i,
{
    if i > 0 {
        assert(metas[0].id != id);
        assert forall|j: int| 0 <= j < i - 1 implies (#[trigger] metas.skip(1)[j]).id != id by {
            assert(metas[j + 1].id != id);
        }
        lemma_name_of(metas.skip(1), id, i - 1);
    }
}

/// A session is called by its name, or by its identifier where it has none; the question before a
/// deletion and the line for a new name name the first session with the identifier.
pub proof fn law_questions_name_their_session(
    p: PickerModel,
    id: Seq<char>,
    buf: Seq<char>,
    i: int,
)
    requires
        0 <= i < p.metas.len(),
        forall|j: int| 0 <= j < i ==> (#[trigger] p.metas[j]).id != id,
        p.metas[i].id == id,
    ensures
        ({
            let name = match p.metas[i].name {
                Some(n) => n,
                None => id,
            };
            &&& shown_name(p.metas[i]) == name
            &&& p.renaming == Some((id, buf)) ==> question_text(p) == Some(
                " 重命名「"@ + name + "」\n 输入新名称（可中文）: "@ + buf
                    + "▎\n Enter 确认 / Esc 取消"@,
            )
            &&& p.renaming is None && p.confirm_delete == Some(id) ==> question_text(p) == Some(
                " 确认删除「"@ + name + "」？y 删除 / 其他键取消"@,
            )
            &&& p.renaming is None && p.confirm_delete is None ==> question_text(p) is None
        }),
{
    lemma_name_of(p.metas, id, i);
}

/// A session without its like in the list is called by its identifier.
pub proof fn law_unknown_sessions_keep_their_identifier(
    metas: Seq<SessionMetaModel>,
    id: Seq<char>,
)
    requires
        forall|j: int| 0 <= j < metas.len() ==> (#[trigger] metas[j]).id != id,
    ensures
        name_of(metas, id) == id,
{
    lemma_name_of(metas, id, metas.len() as int);
}

/// A session's line tells how many messages it has, what it used, and how long ago it changed.
pub proof fn law_session_lines_tell_their_counts(m: SessionMetaModel, now: Timestamp)
    ensures
        ({
            let counts = text::dec(m.usage.prompt_tokens as nat) + "·"@ + text::dec(
                m.usage.completion_tokens as nat,
            ) + "·"@ + text::dec(m.usage.total_tokens as nat);
            meta_text(m, now) =~= "  "@ + text::dec(m.messages) + " 条消息 · tokens in·out·total="@
                + counts + " · "@ + ago_text(m.updated_at, now)
        }),
{
}

} // verus!
