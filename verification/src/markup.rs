//! Text for a terminal: styled spans, the little markdown that messages use, and wrapping to the
//! width of the screen.

use vstd::prelude::*;

use crate::text;
use crate::text::CharClass;

verus! {

#[derive(Clone, Copy, PartialEq, Eq, Structural, Debug)]
pub enum Color {
    Green,
    White,
    Magenta,
    DarkGray,
    Cyan,
    Yellow,
}

#[derive(Clone, Copy, PartialEq, Eq, Structural, Debug)]
pub struct Style {
    pub fg: Option<Color>,
    pub bold: bool,
    pub italic: bool,
    pub dim: bool,
}

/// A run of text in one style.
pub struct Span {
    pub text: String,
    pub style: Style,
}

pub struct SpanModel {
    pub text: Seq<char>,
    pub style: Style,
}

impl View for Span {
    type V = SpanModel;

    open spec fn view(&self) -> SpanModel {
        SpanModel { text: self.text@, style: self.style }
    }
}

pub open spec fn span_models(spans: Seq<Span>) -> Seq<SpanModel> {
    spans.map_values(|s: Span| s@)
}

pub open spec fn line_models(lines: Seq<Vec<Span>>) -> Seq<Seq<SpanModel>> {
    lines.map_values(|l: Vec<Span>| span_models(l@))
}

impl Style {
    pub open spec fn plain() -> Style {
        Style { fg: None, bold: false, italic: false, dim: false }
    }

    pub open spec fn colored(self, c: Color) -> Style {
        Style { fg: Some(c), ..self }
    }

    pub open spec fn strong(self) -> Style {
        Style { bold: true, ..self }
    }

    pub open spec fn faint(self) -> Style {
        Style { dim: true, ..self }
    }

    pub fn none() -> (s: Style)
        ensures
            s == Style::plain(),
    {
        Style { fg: None, bold: false, italic: false, dim: false }
    }

    pub fn with_fg(self, c: Color) -> (s: Style)
        ensures
            s == self.colored(c),
    {
        Style { fg: Some(c), bold: self.bold, italic: self.italic, dim: self.dim }
    }

    pub fn with_bold(self) -> (s: Style)
        ensures
            s == self.strong(),
    {
        Style { fg: self.fg, bold: true, italic: self.italic, dim: self.dim }
    }

    pub fn with_dim(self) -> (s: Style)
        ensures
            s == self.faint(),
    {
        Style { fg: self.fg, bold: self.bold, italic: self.italic, dim: true }
    }
}

fn push_span(spans: &mut Vec<Span>, s: Span)
    ensures
        span_models(final(spans)@) == span_models(old(spans)@).push(s@),
{
    spans.push(s);
    assert(span_models(spans@) =~= span_models(old(spans)@).push(s@));
}

fn push_line(lines: &mut Vec<Vec<Span>>, l: Vec<Span>)
    ensures
        line_models(final(lines)@) == line_models(old(lines)@).push(span_models(l@)),
{
    lines.push(l);
    assert(line_models(lines@) =~= line_models(old(lines)@).push(span_models(l@)));
}

fn append_spans(spans: &mut Vec<Span>, more: Vec<Span>)
    ensures
        span_models(final(spans)@) == span_models(old(spans)@) + span_models(more@),
{
    let mut rest = more;
    spans.append(&mut rest);
    assert(span_models(spans@) =~= span_models(old(spans)@) + span_models(more@));
}

// ---- Inline markup ----

/// Where inline markup stands: the finished spans, the text of the next, and what is switched on.
pub struct InlineState {
    pub done: Seq<SpanModel>,
    pub buf: Seq<char>,
    pub bold: bool,
    pub italic: bool,
    pub code: bool,
}

impl InlineState {
    /// The style of the text at hand.
    pub open spec fn style(self, base: Style) -> Style {
        Style {
            fg: if self.code {
                Some(Color::Yellow)
            } else {
                base.fg
            },
            bold: base.bold || self.bold,
            italic: base.italic || self.italic,
            dim: base.dim,
        }
    }

    /// The text at hand made a span, where there is any.
    pub open spec fn flushed(self, base: Style) -> InlineState {
        if self.buf.len() == 0 {
            self
        } else {
            InlineState {
                done: self.done.push(SpanModel { text: self.buf, style: self.style(base) }),
                buf: Seq::empty(),
                ..self
            }
        }
    }
}

/// What is left of inline markup from a position on: a backquote switches code, two stars switch
/// bold, one star or an underscore switches italics; everything else is text.
pub open spec fn inline_from(s: Seq<char>, base: Style, i: int, st: InlineState) -> InlineState
    decreases s.len() - i,
{
    if i < 0 || i >= s.len() {
        st.flushed(base)
    } else if s[i] == '`' {
        let f = st.flushed(base);
        inline_from(s, base, i + 1, InlineState { code: !f.code, ..f })
    } else if s[i] == '*' && i + 1 < s.len() && s[i + 1] == '*' {
        let f = st.flushed(base);
        inline_from(s, base, i + 2, InlineState { bold: !f.bold, ..f })
    } else if s[i] == '*' || s[i] == '_' {
        let f = st.flushed(base);
        inline_from(s, base, i + 1, InlineState { italic: !f.italic, ..f })
    } else {
        inline_from(s, base, i + 1, InlineState { buf: st.buf.push(s[i]), ..st })
    }
}

pub open spec fn inline_start() -> InlineState {
    InlineState { done: Seq::empty(), buf: Seq::empty(), bold: false, italic: false, code: false }
}

/// The spans of a text with inline markup; at least one.
pub open spec fn inline_spans(s: Seq<char>, base: Style) -> Seq<SpanModel> {
    let spans = inline_from(s, base, 0, inline_start()).done;
    if spans.len() == 0 {
        seq![SpanModel { text: Seq::empty(), style: base }]
    } else {
        spans
    }
}

fn flush_span(
    buf: String,
    spans: &mut Vec<Span>,
    base: Style,
    bold: bool,
    italic: bool,
    code: bool,
) -> (rest: String)
    ensures
        ({
            let st = InlineState { done: span_models(old(spans)@), buf: buf@, bold, italic, code };
            span_models(final(spans)@) == st.flushed(base).done && rest@ == st.flushed(base).buf
        }),
{
    if text::char_count(buf.as_str()) == 0 {
        return buf;
    }
    let style = Style {
        fg: if code {
            Some(Color::Yellow)
        } else {
            base.fg
        },
        bold: base.bold || bold,
        italic: base.italic || italic,
        dim: base.dim,
    };
    push_span(spans, Span { text: buf, style });
    String::new()
}

pub fn md_inline(s: &str, base: Style) -> (r: Vec<Span>)
    ensures
        span_models(r@) == inline_spans(s@, base),
{
    let v = text::chars_of(s);
    let mut spans: Vec<Span> = Vec::new();
    let mut buf = String::new();
    let mut bold: bool = false;
    let mut italic: bool = false;
    let mut code: bool = false;
    let mut i: usize = 0;
    assert(span_models(spans@) =~= Seq::<SpanModel>::empty());
    while i < v.len()
        invariant
            v@ == s@,
            i <= v@.len(),
            inline_from(s@, base, 0, inline_start()) == inline_from(
                s@,
                base,
                i as int,
                (InlineState { done: span_models(spans@), buf: buf@, bold, italic, code }),
            ),
        decreases v@.len() - i,
    {
        let c = v[i];
        if c == '`' {
            buf = flush_span(buf, &mut spans, base, bold, italic, code);
            code = !code;
            i = i + 1;
        } else if c == '*' && i + 1 < v.len() && v[i + 1] == '*' {
            buf = flush_span(buf, &mut spans, base, bold, italic, code);
            bold = !bold;
            i = i + 2;
        } else if c == '*' || c == '_' {
            buf = flush_span(buf, &mut spans, base, bold, italic, code);
            italic = !italic;
            i = i + 1;
        } else {
            buf.push(c);
            i = i + 1;
        }
    }
    buf = flush_span(buf, &mut spans, base, bold, italic, code);
    assert(span_models(spans@).len() == spans@.len());
    if spans.len() == 0 {
        push_span(&mut spans, Span { text: String::new(), style: base });
        assert(span_models(spans@) =~= inline_spans(s@, base));
    }
    spans
}

// ---- Lines ----

/// The spans of a line: headings, quotes, list items and code fences by how it starts, everything
/// else by its inline markup.
pub open spec fn line_spans(s: Seq<char>, base: Style) -> Seq<SpanModel> {
    match text::after_prefix(s, "### "@) {
        Some(rest) => seq![SpanModel { text: rest, style: base.strong() }],
        None => match text::after_prefix(s, "## "@) {
            Some(rest) => seq![
                SpanModel { text: rest, style: base.colored(Color::Cyan).strong() },
            ],
            None => match text::after_prefix(s, "# "@) {
                Some(rest) => seq![
                    SpanModel { text: rest, style: base.colored(Color::Yellow).strong() },
                ],
                None => match text::after_prefix(s, "> "@) {
                    Some(rest) => seq![SpanModel { text: "  "@, style: Style::plain() }]
                        + inline_spans(rest, base.faint()),
                    None => match text::after_prefix(s, "- "@) {
                        Some(rest) => seq![
                            SpanModel { text: "• "@, style: base.colored(Color::Cyan) },
                        ] + inline_spans(rest, base),
                        None => match text::after_prefix(s, "* "@) {
                            Some(rest) => seq![
                                SpanModel { text: "• "@, style: base.colored(Color::Cyan) },
                            ] + inline_spans(rest, base),
                            None => if text::has_prefix(
                                text::front_stripped(s, CharClass::White),
                                "```"@,
                            ) {
                                seq![SpanModel { text: s, style: base.colored(Color::DarkGray) }]
                            } else {
                                inline_spans(s, base)
                            },
                        },
                    },
                },
            },
        },
    }
}

fn one_span(s: String, style: Style) -> (r: Vec<Span>)
    ensures
        span_models(r@) == seq![SpanModel { text: s@, style }],
{
    let mut r: Vec<Span> = Vec::new();
    r.push(Span { text: s, style });
    assert(span_models(r@) =~= seq![SpanModel { text: s@, style }]);
    r
}

pub fn md_line(line: &str, base: Style) -> (r: Vec<Span>)
    ensures
        span_models(r@) == line_spans(line@, base),
{
    match text::strip_prefix(line, "### ") {
        Some(rest) => return one_span(rest, base.with_bold()),
        None => {},
    }
    match text::strip_prefix(line, "## ") {
        Some(rest) => return one_span(rest, base.with_fg(Color::Cyan).with_bold()),
        None => {},
    }
    match text::strip_prefix(line, "# ") {
        Some(rest) => return one_span(rest, base.with_fg(Color::Yellow).with_bold()),
        None => {},
    }
    match text::strip_prefix(line, "> ") {
        Some(rest) => {
            let mut spans = one_span(text::copy_text("  "), Style::none());
            append_spans(&mut spans, md_inline(rest.as_str(), base.with_dim()));
            return spans;
        },
        None => {},
    }
    match text::strip_prefix(line, "- ") {
        Some(rest) => {
            let mut spans = one_span(text::copy_text("• "), base.with_fg(Color::Cyan));
            append_spans(&mut spans, md_inline(rest.as_str(), base));
            return spans;
        },
        None => {},
    }
    match text::strip_prefix(line, "* ") {
        Some(rest) => {
            let mut spans = one_span(text::copy_text("• "), base.with_fg(Color::Cyan));
            append_spans(&mut spans, md_inline(rest.as_str(), base));
            return spans;
        },
        None => {},
    }
    let bare = text::strip_front(line, CharClass::White);
    if text::starts_with(bare.as_str(), "```") {
        return one_span(text::copy_text(line), base.with_fg(Color::DarkGray));
    }
    md_inline(line, base)
}

// ---- Table rows ----

/// The pieces of a row that hold more than white space.
pub open spec fn filled(pieces: Seq<Seq<char>>) -> nat
    decreases pieces.len(),
{
    if pieces.len() == 0 {
        0
    } else {
        filled(pieces.drop_last()) + (if text::trimmed(pieces.last()).len() > 0 {
            1nat
        } else {
            0nat
        })
    }
}

/// Whether a line is a row of a table: it has a bar, and it starts or ends with one or has at least
/// two cells that hold something.
pub open spec fn is_row(line: Seq<char>) -> bool {
    let t = text::trimmed(line);
    t.contains('|') && (t.first() == '|' || t.last() == '|' || filled(text::split_at_char(t, '|'))
        >= 2)
}

/// Whether a character is among others.
fn has_char(v: &Vec<char>, c: char) -> (b: bool)
    ensures
        b == v@.contains(c),
{
    let mut i: usize = 0;
    while i < v.len()
        invariant
            i <= v@.len(),
            forall|k: int| 0 <= k < i ==> #[trigger] v@[k] != c,
        decreases v@.len() - i,
    {
        if v[i] == c {
            assert(v@[i as int] == c);
            return true;
        }
        i = i + 1;
    }
    false
}

pub fn is_table_row(line: &str) -> (b: bool)
    ensures
        b == is_row(line@),
{
    let t = text::trim(line);
    let v = text::chars_of(t.as_str());
    if !has_char(&v, '|') {
        return false;
    }
    if v[0] == '|' || v[v.len() - 1] == '|' {
        return true;
    }
    let pieces = text::split(t.as_str(), '|');
    let ghost all = text::views(pieces@);
    let mut count: usize = 0;
    let mut i: usize = 0;
    while i < pieces.len()
        invariant
            i <= pieces@.len(),
            all == text::views(pieces@),
            count <= i,
            count == filled(all.take(i as int)),
        decreases pieces@.len() - i,
    {
        let bare = text::trim(pieces[i].as_str());
        proof {
            assert(all.take(i + 1).drop_last() == all.take(i as int));
            assert(all.take(i + 1).last() == pieces@[i as int]@);
        }
        if text::char_count(bare.as_str()) > 0 {
            count = count + 1;
        }
        i = i + 1;
    }
    assert(all.take(all.len() as int) == all);
    count >= 2
}

/// Whether a cell is part of a rule below a table's head.
pub open spec fn is_rule_cell(cell: Seq<char>) -> bool {
    cell.len() > 0 && forall|i: int|
        0 <= i < cell.len() ==> (#[trigger] cell[i] == '-' || cell[i] == ':' || cell[i] == ' ')
}

/// The cells of a row, without white space at their ends.
pub open spec fn cells_of(line: Seq<char>) -> Seq<Seq<char>> {
    text::split_at_char(row_inner(line), '|').map_values(|c: Seq<char>| text::trimmed(c))
}

/// A row without white space and bars at its ends.
pub open spec fn row_inner(line: Seq<char>) -> Seq<char> {
    text::stripped(text::trimmed(line), CharClass::Only('|'))
}

/// The spans of the first `n` cells.
pub open spec fn cell_spans(cells: Seq<Seq<char>>, base: Style, n: int) -> Seq<SpanModel>
    decreases n,
{
    if n <= 0 {
        Seq::empty()
    } else {
        let before = cell_spans(cells, base, n - 1);
        let divided = if n > 1 {
            before.push(SpanModel { text: "│ "@, style: base.colored(Color::DarkGray) })
        } else {
            before
        };
        divided.push(SpanModel { text: cells[n - 1] + " "@, style: base })
    }
}

/// The spans of a row of a table: a rule where all its cells are rules, else the cells with a bar
/// between neighbours.
pub open spec fn row_spans(line: Seq<char>, base: Style) -> Seq<SpanModel> {
    let cells = cells_of(line);
    if forall|i: int| 0 <= i < cells.len() ==> is_rule_cell(#[trigger] cells[i]) {
        seq![
            SpanModel {
                text: Seq::new(row_inner(line).len(), |i: int| '─'),
                style: base.colored(Color::DarkGray),
            },
        ]
    } else {
        cell_spans(cells, base, cells.len() as int)
    }
}

fn is_rule(cell: &str) -> (b: bool)
    ensures
        b == is_rule_cell(cell@),
{
    let v = text::chars_of(cell);
    if v.len() == 0 {
        return false;
    }
    let mut i: usize = 0;
    while i < v.len()
        invariant
            v@ == cell@,
            i <= v@.len(),
            forall|j: int|
                0 <= j < i ==> (#[trigger] v@[j] == '-' || v@[j] == ':' || v@[j] == ' '),
        decreases v@.len() - i,
    {
        if !(v[i] == '-' || v[i] == ':' || v[i] == ' ') {
            assert(cell@[i as int] == v@[i as int]);
            return false;
        }
        i = i + 1;
    }
    true
}

pub fn render_table_row(line: &str, base: Style) -> (r: Vec<Span>)
    ensures
        span_models(r@) == row_spans(line@, base),
{
    let t = text::trim(line);
    let inner = text::strip(t.as_str(), CharClass::Only('|'));
    let pieces = text::split(inner.as_str(), '|');
    let ghost all = cells_of(line@);
    let mut cells: Vec<String> = Vec::new();
    let mut rules: bool = true;
    let mut i: usize = 0;
    while i < pieces.len()
        invariant
            inner@ == row_inner(line@),
            text::views(pieces@) == text::split_at_char(inner@, '|'),
            all == cells_of(line@),
            i <= pieces@.len() == all.len(),
            text::views(cells@) =~= all.take(i as int),
            rules == (forall|j: int| 0 <= j < i ==> is_rule_cell(#[trigger] all[j])),
        decreases pieces@.len() - i,
    {
        let cell = text::trim(pieces[i].as_str());
        proof {
            assert(text::views(pieces@)[i as int] == pieces@[i as int]@);
            assert(all[i as int] == cell@);
            text::lemma_views_push(cells@, cell);
            assert(all.take(i + 1) =~= all.take(i as int).push(all[i as int]));
        }
        if !is_rule(cell.as_str()) {
            rules = false;
        }
        cells.push(cell);
        i = i + 1;
    }
    assert(all.take(all.len() as int) =~= all);
    if rules {
        let n = text::char_count(inner.as_str());
        let mut bar = String::new();
        let mut k: usize = 0;
        while k < n
            invariant
                k <= n,
                bar@ =~= Seq::new(k as nat, |i: int| '─'),
            decreases n - k,
        {
            bar.push('─');
            k = k + 1;
        }
        return one_span(bar, base.with_fg(Color::DarkGray));
    }
    let mut spans: Vec<Span> = Vec::new();
    let mut k: usize = 0;
    assert(span_models(spans@) =~= cell_spans(all, base, 0));
    while k < cells.len()
        invariant
            text::views(cells@) == all,
            k <= cells@.len(),
            span_models(spans@) == cell_spans(all, base, k as int),
        decreases cells@.len() - k,
    {
        assert(all[k as int] == cells@[k as int]@);
        if k > 0 {
            push_span(
                &mut spans,
                Span { text: text::copy_text("│ "), style: base.with_fg(Color::DarkGray) },
            );
        }
        let mut cell = text::copy_text(cells[k].as_str());
        cell.append(" ");
        push_span(&mut spans, Span { text: cell, style: base });
        k = k + 1;
    }
    spans
}

// ---- The log ----

/// Whose a line of the log is.
#[derive(Clone, Copy, PartialEq, Eq, Structural, Debug)]
pub enum Role {
    User,
    Assistant,
    Tool,
    System,
}

pub struct LogLine {
    pub role: Role,
    pub text: String,
}

pub struct LogLineModel {
    pub role: Role,
    pub text: Seq<char>,
}

impl View for LogLine {
    type V = LogLineModel;

    open spec fn view(&self) -> LogLineModel {
        LogLineModel { role: self.role, text: self.text@ }
    }
}

pub open spec fn role_tag(role: Role) -> Seq<char> {
    match role {
        Role::User => "你"@,
        Role::Assistant => "拾光者"@,
        Role::Tool => "工具"@,
        Role::System => "系统"@,
    }
}

pub open spec fn role_style(role: Role) -> Style {
    Style::plain().colored(
        match role {
            Role::User => Color::Green,
            Role::Assistant => Color::White,
            Role::Tool => Color::Magenta,
            Role::System => Color::DarkGray,
        },
    )
}

/// The line of the screen for one line of an entry: the first with the speaker's name, the others
/// indented; only what the user and the assistant say is marked up.
pub open spec fn entry_line(role: Role, first: bool, part: Seq<char>) -> Seq<SpanModel> {
    let style = role_style(role);
    let head = if first {
        SpanModel { text: role_tag(role) + ": "@, style: style.strong() }
    } else {
        SpanModel { text: "  "@, style: Style::plain() }
    };
    let body = if role == Role::Assistant || role == Role::User {
        line_spans(part, style)
    } else {
        seq![SpanModel { text: part, style }]
    };
    seq![head] + body
}

/// The lines of the screen for an entry of the log.
pub open spec fn entry_lines(l: LogLineModel) -> Seq<Seq<SpanModel>> {
    let parts = text::split_at_char(l.text, '\n');
    Seq::new(parts.len(), |i: int| entry_line(l.role, i == 0, parts[i]))
}

impl LogLine {
    /// The lines of the screen for an entry of the log.
    pub fn render(l: &LogLine) -> (r: Vec<Vec<Span>>)
        ensures
            line_models(r@) == entry_lines(l@),
    {
        let (tag, color): (&'static str, Color) = match l.role {
            Role::User => ("你", Color::Green),
            Role::Assistant => ("拾光者", Color::White),
            Role::Tool => ("工具", Color::Magenta),
            Role::System => ("系统", Color::DarkGray),
        };
        let style = Style::none().with_fg(color);
        let use_md = l.role == Role::Assistant || l.role == Role::User;
        let parts = text::split(l.text.as_str(), '\n');
        let ghost all = entry_lines(l@);
        let mut out: Vec<Vec<Span>> = Vec::new();
        let mut i: usize = 0;
        while i < parts.len()
            invariant
                text::views(parts@) == text::split_at_char(l.text@, '\n'),
                all == entry_lines(l@),
                tag@ == role_tag(l.role),
                style == role_style(l.role),
                use_md == (l.role == Role::Assistant || l.role == Role::User),
                i <= parts@.len() == all.len(),
                line_models(out@) =~= all.take(i as int),
            decreases parts@.len() - i,
        {
            let mut spans: Vec<Span> = Vec::new();
            if i == 0 {
                let mut head = text::copy_text(tag);
                head.append(": ");
                push_span(&mut spans, Span { text: head, style: style.with_bold() });
            } else {
                push_span(&mut spans, Span { text: text::copy_text("  "), style: Style::none() });
            }
            if use_md {
                append_spans(&mut spans, md_line(parts[i].as_str(), style));
            } else {
                append_spans(&mut spans, one_span(text::copy_text(parts[i].as_str()), style));
            }
            proof {
                assert(text::views(parts@)[i as int] == parts@[i as int]@);
                assert(span_models(spans@) =~= all[i as int]);
                assert(all.take(i + 1) =~= all.take(i as int).push(all[i as int]));
            }
            push_line(&mut out, spans);
            i = i + 1;
        }
        assert(all.take(all.len() as int) =~= all);
        out
    }
}

// ---- Wrapping ----

/// How many columns `UnicodeWidthChar::width` gives a character; `None` for control characters.
pub uninterp spec fn char_columns(c: char) -> Option<usize>;

/// `UnicodeWidthChar::width`: the answer depends on the character alone.
#[verifier::external_body]
fn width_of_char(c: char) -> (r: Option<usize>)
    ensures
        r == char_columns(c),
{
    unicode_width::UnicodeWidthChar::width(c)
}

/// The columns of a character; control characters have none.
pub open spec fn columns(c: char) -> nat {
    match char_columns(c) {
        Some(n) => n as nat,
        None => 0,
    }
}

/// Where wrapping stands: the finished lines, the finished spans of the line at hand, its columns,
/// and the text of its next span.
pub struct WrapState {
    pub done: Seq<Seq<SpanModel>>,
    pub spans: Seq<SpanModel>,
    pub width: nat,
    pub buf: Seq<char>,
}

impl WrapState {
    /// The text at hand made a span, where there is any.
    pub open spec fn flushed(self, style: Style) -> WrapState {
        if self.buf.len() == 0 {
            self
        } else {
            WrapState {
                spans: self.spans.push(SpanModel { text: self.buf, style }),
                buf: Seq::empty(),
                ..self
            }
        }
    }

    /// The line at hand ended.
    pub open spec fn broken(self) -> WrapState {
        WrapState { done: self.done.push(self.spans), spans: Seq::empty(), width: 0, ..self }
    }

    /// Whether the line at hand holds any text.
    pub open spec fn is_begun(self) -> bool {
        self.spans.len() > 0 || self.buf.len() > 0
    }

    /// A character taken in: a line that it would overfill ends before it, a line that it fills
    /// ends after it.
    pub open spec fn with_char(self, c: char, style: Style, limit: nat) -> WrapState {
        let before = if self.width + columns(c) > limit && self.is_begun() {
            self.flushed(style).broken()
        } else {
            self
        };
        let with = WrapState {
            buf: before.buf.push(c),
            width: before.width + columns(c),
            ..before
        };
        if with.width >= limit {
            with.flushed(style).broken()
        } else {
            with
        }
    }
}

/// The characters of a span taken in.
pub open spec fn wrap_chars(st: WrapState, s: Seq<char>, style: Style, limit: nat) -> WrapState
    decreases s.len(),
{
    if s.len() == 0 {
        st
    } else {
        wrap_chars(st, s.drop_last(), style, limit).with_char(s.last(), style, limit)
    }
}

/// The spans of a line taken in.
pub open spec fn wrap_spans(st: WrapState, spans: Seq<SpanModel>, limit: nat) -> WrapState
    decreases spans.len(),
{
    if spans.len() == 0 {
        st
    } else {
        let before = wrap_spans(st, spans.drop_last(), limit);
        wrap_chars(before, spans.last().text, spans.last().style, limit).flushed(
            spans.last().style,
        )
    }
}

pub open spec fn wrap_start() -> WrapState {
    WrapState { done: Seq::empty(), spans: Seq::empty(), width: 0, buf: Seq::empty() }
}

/// The lines that one line is wrapped into.
pub open spec fn wrapped_line(spans: Seq<SpanModel>, limit: nat) -> Seq<Seq<SpanModel>> {
    let st = wrap_spans(wrap_start(), spans, limit);
    if st.spans.len() == 0 {
        st.done
    } else {
        st.done.push(st.spans)
    }
}

/// The lines that the given lines are wrapped into; a screen without columns shows none.
pub open spec fn wrapped(lines: Seq<Seq<SpanModel>>, limit: nat) -> Seq<Seq<SpanModel>>
    decreases lines.len(),
{
    if limit == 0 || lines.len() == 0 {
        Seq::empty()
    } else {
        wrapped(lines.drop_last(), limit) + wrapped_line(lines.last(), limit)
    }
}

fn flush_wrapped(buf: String, spans: &mut Vec<Span>, style: Style, Ghost(st): Ghost<WrapState>)
    requires
        span_models(old(spans)@) == st.spans,
        buf@ == st.buf,
    ensures
        span_models(final(spans)@) == st.flushed(style).spans,
{
    if text::char_count(buf.as_str()) > 0 {
        push_span(spans, Span { text: buf, style });
    }
}

/// The lines that one line is wrapped into.
fn wrap_line(line: &Vec<Span>, width: usize) -> (r: Vec<Vec<Span>>)
    requires
        width > 0,
    ensures
        line_models(r@) == wrapped_line(span_models(line@), width as nat),
{
    let ghost all = span_models(line@);
    let ghost limit = width as nat;
    let mut out: Vec<Vec<Span>> = Vec::new();
    let mut cur: Vec<Span> = Vec::new();
    let mut cur_w: u128 = 0;
    let mut i: usize = 0;
    let ghost mut st = wrap_start();
    assert(line_models(out@) =~= st.done);
    assert(span_models(cur@) =~= st.spans);
    while i < line.len()
        invariant
            width > 0,
            limit == width,
            all == span_models(line@),
            i <= line@.len(),
            st == wrap_spans(wrap_start(), all.take(i as int), limit),
            st.buf.len() == 0,
            line_models(out@) == st.done,
            span_models(cur@) == st.spans,
            cur_w == st.width,
            cur_w < width,
        decreases line@.len() - i,
    {
        let style = line[i].style;
        let v = text::chars_of(line[i].text.as_str());
        let ghost before = st;
        let mut buf = String::new();
        let mut k: usize = 0;
        proof {
            assert(buf@ =~= st.buf);
            assert(v@.take(0) =~= Seq::<char>::empty());
        }
        while k < v.len()
            invariant
                width > 0,
                limit == width,
                k <= v@.len(),
                st == wrap_chars(before, v@.take(k as int), style, limit),
                line_models(out@) == st.done,
                span_models(cur@) == st.spans,
                buf@ == st.buf,
                cur_w == st.width,
                cur_w < width,
            decreases v@.len() - k,
        {
            let c = v[k];
            let cw: u128 = match width_of_char(c) {
                Some(n) => n as u128,
                None => 0,
            };
            let ghost start = st;
            assert(span_models(cur@).len() == cur@.len());
            if cur_w + cw > width as u128 && (cur.len() > 0 || text::char_count(buf.as_str()) > 0) {
                flush_wrapped(buf, &mut cur, style, Ghost(st));
                push_line(&mut out, cur);
                cur = Vec::new();
                cur_w = 0;
                buf = String::new();
                proof {
                    st = st.flushed(style).broken();
                    assert(span_models(cur@) =~= st.spans);
                    assert(buf@ =~= st.buf);
                }
            }
            buf.push(c);
            cur_w = cur_w + cw;
            proof {
                st = WrapState { buf: st.buf.push(c), width: st.width + columns(c), ..st };
            }
            if cur_w >= width as u128 {
                flush_wrapped(buf, &mut cur, style, Ghost(st));
                push_line(&mut out, cur);
                cur = Vec::new();
                cur_w = 0;
                buf = String::new();
                proof {
                    st = st.flushed(style).broken();
                    assert(span_models(cur@) =~= st.spans);
                    assert(buf@ =~= st.buf);
                }
            }
            proof {
                assert(st == start.with_char(c, style, limit));
                assert(v@.take(k + 1).drop_last() =~= v@.take(k as int));
                assert(v@.take(k + 1).last() == c);
            }
            k = k + 1;
        }
        assert(v@.take(v@.len() as int) =~= v@);
        flush_wrapped(buf, &mut cur, style, Ghost(st));
        proof {
            st = st.flushed(style);
            let now = all.take(i + 1);
            assert(now.drop_last() =~= all.take(i as int));
            assert(now.last() == line@[i as int]@);
        }
        i = i + 1;
    }
    assert(all.take(all.len() as int) =~= all);
    assert(span_models(cur@).len() == cur@.len());
    if cur.len() > 0 {
        push_line(&mut out, cur);
    }
    out
}

/// Wraps lines to the width of a screen.
pub fn wrap_lines(lines: &Vec<Vec<Span>>, width: usize) -> (r: Vec<Vec<Span>>)
    ensures
        line_models(r@) == wrapped(line_models(lines@), width as nat),
{
    let mut out: Vec<Vec<Span>> = Vec::new();
    let ghost all = line_models(lines@);
    if width == 0 {
        assert(line_models(out@) =~= wrapped(all, 0));
        return out;
    }
    let mut i: usize = 0;
    assert(line_models(out@) =~= wrapped(all.take(0), width as nat));
    while i < lines.len()
        invariant
            width > 0,
            i <= lines@.len(),
            all == line_models(lines@),
            line_models(out@) == wrapped(all.take(i as int), width as nat),
        decreases lines@.len() - i,
    {
        let mut more = wrap_line(&lines[i], width);
        let ghost before = out@;
        let ghost added = more@;
        out.append(&mut more);
        proof {
            assert(line_models(out@) =~= line_models(before) + line_models(added));
            assert(all.take(i + 1).drop_last() =~= all.take(i as int));
            assert(all.take(i + 1).last() == span_models(lines@[i as int]@));
        }
        i = i + 1;
    }
    assert(all.take(all.len() as int) =~= all);
    out
}

/// The text of a line.
pub open spec fn spans_text(spans: Seq<SpanModel>) -> Seq<char>
    decreases spans.len(),
{
    if spans.len() == 0 {
        Seq::empty()
    } else {
        spans_text(spans.drop_last()) + spans.last().text
    }
}

/// The characters of a line, each with its style.
pub open spec fn styled_text(spans: Seq<SpanModel>) -> Seq<(char, Style)>
    decreases spans.len(),
{
    if spans.len() == 0 {
        Seq::empty()
    } else {
        styled_text(spans.drop_last()) + in_style(spans.last().text, spans.last().style)
    }
}

/// Characters that all have one style.
pub open spec fn in_style(s: Seq<char>, style: Style) -> Seq<(char, Style)> {
    s.map_values(|c: char| (c, style))
}

/// The characters of lines, one line after another, each with its style.
pub open spec fn styled_lines(lines: Seq<Seq<SpanModel>>) -> Seq<(char, Style)>
    decreases lines.len(),
{
    if lines.len() == 0 {
        Seq::empty()
    } else {
        styled_lines(lines.drop_last()) + styled_text(lines.last())
    }
}

/// The text of lines, one after another.
pub open spec fn lines_text(lines: Seq<Seq<SpanModel>>) -> Seq<char>
    decreases lines.len(),
{
    if lines.len() == 0 {
        Seq::empty()
    } else {
        lines_text(lines.drop_last()) + spans_text(lines.last())
    }
}

/// The columns of a text.
pub open spec fn total_columns(s: Seq<char>) -> nat
    decreases s.len(),
{
    if s.len() == 0 {
        0
    } else {
        total_columns(s.drop_last()) + columns(s.last())
    }
}

/// Whether no character of a line is wider than a screen.
pub open spec fn chars_fit(spans: Seq<SpanModel>, limit: nat) -> bool {
    forall|i: int|
        0 <= i < spans_text(spans).len() ==> columns(#[trigger] spans_text(spans)[i]) <= limit
}

proof fn lemma_styled_text(spans: Seq<SpanModel>)
    ensures
        styled_text(spans).map_values(|p: (char, Style)| p.0) == spans_text(spans),
    decreases spans.len(),
{
    let first = |p: (char, Style)| p.0;
    if spans.len() == 0 {
        assert(styled_text(spans).map_values(first) =~= spans_text(spans));
    } else {
        lemma_styled_text(spans.drop_last());
        let last = spans.last();
        assert(in_style(last.text, last.style).map_values(first) =~= last.text);
        assert(styled_text(spans).map_values(first) =~= styled_text(spans.drop_last()).map_values(
            first,
        ) + in_style(last.text, last.style).map_values(first));
    }
}

proof fn lemma_styled_lines(lines: Seq<Seq<SpanModel>>)
    ensures
        styled_lines(lines).map_values(|p: (char, Style)| p.0) == lines_text(lines),
    decreases lines.len(),
{
    let first = |p: (char, Style)| p.0;
    if lines.len() == 0 {
        assert(styled_lines(lines).map_values(first) =~= lines_text(lines));
    } else {
        lemma_styled_lines(lines.drop_last());
        lemma_styled_text(lines.last());
        assert(styled_lines(lines).map_values(first) =~= styled_lines(lines.drop_last()).map_values(
            first,
        ) + styled_text(lines.last()).map_values(first));
    }
}

proof fn lemma_styled_lines_join(a: Seq<Seq<SpanModel>>, b: Seq<Seq<SpanModel>>)
    ensures
        styled_lines(a + b) == styled_lines(a) + styled_lines(b),
    decreases b.len(),
{
    if b.len() == 0 {
        assert(a + b =~= a);
        assert(styled_lines(a) + styled_lines(b) =~= styled_lines(a));
    } else {
        assert((a + b).drop_last() =~= a + b.drop_last());
        assert((a + b).last() == b.last());
        lemma_styled_lines_join(a, b.drop_last());
        assert(styled_lines(a + b) =~= styled_lines(a) + styled_lines(b));
    }
}

impl WrapState {
    /// All that has been taken in; the text at hand is in the given style.
    spec fn all_styled(self, style: Style) -> Seq<(char, Style)> {
        styled_lines(self.done) + styled_text(self.spans) + in_style(self.buf, style)
    }

    /// The text of the line at hand.
    spec fn line_text(self) -> Seq<char> {
        spans_text(self.spans) + self.buf
    }
}

/// Whether a line has no room for the text that goes on below it.
pub open spec fn is_full(line: Seq<char>, next: Seq<char>, limit: nat) -> bool {
    total_columns(line) >= limit || (next.len() > 0 && total_columns(line) + columns(next[0]) > limit)
}

/// What holds of a state between two characters.
spec fn fits(st: WrapState, limit: nat) -> bool {
    &&& st.width == total_columns(st.line_text())
    &&& st.width < limit
    &&& forall|i: int| 0 <= i < st.spans.len() ==> (#[trigger] st.spans[i]).text.len() > 0
    &&& forall|i: int|
        0 <= i < st.done.len() ==> spans_text(#[trigger] st.done[i]).len() > 0 && total_columns(
            spans_text(st.done[i]),
        ) <= limit
    &&& forall|i: int, j: int|
        0 <= i < st.done.len() && j == i + 1 && j < st.done.len() ==> is_full(
            spans_text(#[trigger] st.done[i]),
            spans_text(#[trigger] st.done[j]),
            limit,
        )
    &&& st.done.len() > 0 ==> is_full(spans_text(st.done.last()), st.line_text(), limit)
}

proof fn lemma_begun(st: WrapState)
    requires
        forall|i: int| 0 <= i < st.spans.len() ==> (#[trigger] st.spans[i]).text.len() > 0,
    ensures
        st.is_begun() == (st.line_text().len() > 0),
{
    if st.spans.len() > 0 {
        assert(st.spans.last().text.len() > 0);
    }
}

proof fn lemma_flush(st: WrapState, style: Style)
    ensures
        st.flushed(style).all_styled(style) == st.all_styled(style),
        st.flushed(style).line_text() == st.line_text(),
        st.flushed(style).line_text() == spans_text(st.flushed(style).spans),
        st.flushed(style).buf.len() == 0,
        st.flushed(style).done == st.done,
        st.flushed(style).width == st.width,
{
    let f = st.flushed(style);
    if st.buf.len() > 0 {
        assert(f.spans.drop_last() =~= st.spans);
        assert(f.line_text() =~= st.line_text());
        assert(f.all_styled(style) =~= st.all_styled(style));
    }
    assert(f.line_text() =~= spans_text(f.spans));
}

proof fn lemma_break(st: WrapState, style: Style)
    requires
        st.buf.len() == 0,
    ensures
        st.broken().all_styled(style) == st.all_styled(style),
        st.broken().line_text() =~= Seq::<char>::empty(),
{
    let b = st.broken();
    assert(b.done.drop_last() =~= st.done);
    assert(b.all_styled(style) =~= st.all_styled(style));
}

proof fn lemma_with_char(st: WrapState, c: char, style: Style, limit: nat)
    requires
        fits(st, limit),
        columns(c) <= limit,
        limit > 0,
    ensures
        fits(st.with_char(c, style, limit), limit),
{
    let flushed = st.flushed(style);
    lemma_flush(st, style);
    lemma_begun(st);
    lemma_break(flushed, style);
    let over = st.width + columns(c) > limit && st.is_begun();
    let before = if over {
        flushed.broken()
    } else {
        st
    };
    let with = WrapState { buf: before.buf.push(c), width: before.width + columns(c), ..before };
    let one = Seq::<char>::empty().push(c);
    assert(one.drop_last() =~= Seq::<char>::empty());
    assert(total_columns(Seq::<char>::empty()) == 0);
    assert(with.line_text() =~= before.line_text().push(c));
    assert(with.line_text().drop_last() =~= before.line_text());
    assert(with.width == total_columns(with.line_text()));
    if over {
        assert(before.line_text() =~= Seq::<char>::empty());
        assert(with.line_text()[0] == c);
        assert(before.done.last() == flushed.spans);
        assert(is_full(spans_text(before.done.last()), with.line_text(), limit));
    } else {
        if !st.is_begun() {
            assert(st.line_text() =~= Seq::<char>::empty());
        }
        assert(with.width <= limit);
        if st.done.len() > 0 {
            if st.line_text().len() > 0 {
                assert(with.line_text()[0] == st.line_text()[0]);
            }
            assert(is_full(spans_text(before.done.last()), with.line_text(), limit));
        }
    }
    assert(with.width <= limit);
    let f = with.flushed(style);
    lemma_flush(with, style);
    lemma_break(f, style);
    if with.width >= limit {
        assert(f.broken().done =~= before.done.push(f.spans));
        assert(f.broken().line_text() =~= Seq::<char>::empty());
    }
}

proof fn lemma_char_is_kept(st: WrapState, c: char, style: Style, limit: nat)
    ensures
        st.with_char(c, style, limit).all_styled(style) == st.all_styled(style).push((c, style)),
{
    let flushed = st.flushed(style);
    lemma_flush(st, style);
    lemma_break(flushed, style);
    let before = if st.width + columns(c) > limit && st.is_begun() {
        flushed.broken()
    } else {
        st
    };
    let with = WrapState { buf: before.buf.push(c), width: before.width + columns(c), ..before };
    assert(in_style(with.buf, style) =~= in_style(before.buf, style).push((c, style)));
    assert(with.all_styled(style) =~= before.all_styled(style).push((c, style)));
    lemma_flush(with, style);
    lemma_break(with.flushed(style), style);
}

proof fn lemma_wrap_chars(st: WrapState, s: Seq<char>, style: Style, limit: nat)
    ensures
        wrap_chars(st, s, style, limit).all_styled(style) == st.all_styled(style) + in_style(s, style),
        limit > 0 && fits(st, limit) && (forall|i: int|
            0 <= i < s.len() ==> columns(#[trigger] s[i]) <= limit) ==> fits(
            wrap_chars(st, s, style, limit),
            limit,
        ),
    decreases s.len(),
{
    if s.len() == 0 {
        assert(st.all_styled(style) + in_style(s, style) =~= st.all_styled(style));
    } else {
        let front = s.drop_last();
        lemma_wrap_chars(st, front, style, limit);
        let before = wrap_chars(st, front, style, limit);
        lemma_char_is_kept(before, s.last(), style, limit);
        assert((st.all_styled(style) + in_style(front, style)).push((s.last(), style))
            =~= st.all_styled(style) + in_style(s, style));
        if limit > 0 && fits(st, limit) && (forall|i: int|
            0 <= i < s.len() ==> columns(#[trigger] s[i]) <= limit) {
            assert forall|i: int| 0 <= i < front.len() implies columns(#[trigger] front[i])
                <= limit by {
                assert(front[i] == s[i]);
            }
            assert(columns(s[s.len() - 1]) <= limit);
            lemma_with_char(before, s.last(), style, limit);
        }
    }
}

proof fn lemma_wrap_spans(spans: Seq<SpanModel>, limit: nat)
    ensures
        ({
            let st = wrap_spans(wrap_start(), spans, limit);
            &&& st.buf.len() == 0
            &&& styled_lines(st.done) + styled_text(st.spans) == styled_text(spans)
            &&& limit > 0 && chars_fit(spans, limit) ==> fits(st, limit)
        }),
    decreases spans.len(),
{
    let st = wrap_spans(wrap_start(), spans, limit);
    if spans.len() == 0 {
        assert(styled_lines(st.done) + styled_text(st.spans) =~= styled_text(spans));
        assert(st.line_text() =~= Seq::<char>::empty());
    } else {
        let front = spans.drop_last();
        let last = spans.last();
        lemma_wrap_spans(front, limit);
        let before = wrap_spans(wrap_start(), front, limit);
        let chars = wrap_chars(before, last.text, last.style, limit);
        lemma_wrap_chars(before, last.text, last.style, limit);
        lemma_flush(chars, last.style);
        assert(in_style(before.buf, last.style) =~= Seq::<(char, Style)>::empty());
        assert(in_style(st.buf, last.style) =~= Seq::<(char, Style)>::empty());
        assert(before.all_styled(last.style) =~= styled_text(front));
        assert(st.all_styled(last.style) =~= styled_lines(st.done) + styled_text(st.spans));
        assert(styled_lines(st.done) + styled_text(st.spans) =~= styled_text(spans));
        if limit > 0 && chars_fit(spans, limit) {
            let t = spans_text(spans);
            let n = spans_text(front).len();
            assert forall|i: int| 0 <= i < spans_text(front).len() implies columns(
                #[trigger] spans_text(front)[i],
            ) <= limit by {
                assert(t[i] == spans_text(front)[i]);
            }
            assert forall|i: int| 0 <= i < last.text.len() implies columns(#[trigger] last.text[i])
                <= limit by {
                assert(t[n + i] == last.text[i]);
            }
            assert(fits(chars, limit));
        }
    }
}

/// Wrapping a line loses nothing and adds nothing: the lines that it makes hold the same text, and
/// every character keeps its style.
pub proof fn law_wrapping_keeps_text(spans: Seq<SpanModel>, limit: nat)
    ensures
        lines_text(wrapped_line(spans, limit)) == spans_text(spans),
        styled_lines(wrapped_line(spans, limit)) == styled_text(spans),
{
    lemma_wrap_spans(spans, limit);
    let st = wrap_spans(wrap_start(), spans, limit);
    let lines = wrapped_line(spans, limit);
    if st.spans.len() > 0 {
        assert(lines.drop_last() =~= st.done);
    }
    assert(styled_lines(lines) =~= styled_text(spans));
    lemma_styled_lines(lines);
    lemma_styled_text(spans);
}

/// No line that wrapping makes is empty or wider than the screen, as long as no character is.
pub proof fn law_wrapped_lines_fit(spans: Seq<SpanModel>, limit: nat)
    requires
        limit > 0,
        chars_fit(spans, limit),
    ensures
        forall|i: int|
            0 <= i < wrapped_line(spans, limit).len() ==> total_columns(
                spans_text(#[trigger] wrapped_line(spans, limit)[i]),
            ) <= limit,
        forall|i: int|
            0 <= i < wrapped_line(spans, limit).len() ==> spans_text(
                #[trigger] wrapped_line(spans, limit)[i],
            ).len() > 0,
{
    lemma_wrap_spans(spans, limit);
    let st = wrap_spans(wrap_start(), spans, limit);
    lemma_begun(st);
    assert(st.line_text() =~= spans_text(st.spans));
}

/// A line that wrapping makes ends only where it is full: the first character of the next line would
/// not have fitted on it.
pub proof fn law_wrapped_lines_are_full(spans: Seq<SpanModel>, limit: nat, i: int)
    requires
        limit > 0,
        chars_fit(spans, limit),
        0 <= i < wrapped_line(spans, limit).len() - 1,
    ensures
        is_full(
            spans_text(wrapped_line(spans, limit)[i]),
            spans_text(wrapped_line(spans, limit)[i + 1]),
            limit,
        ),
{
    lemma_wrap_spans(spans, limit);
    let st = wrap_spans(wrap_start(), spans, limit);
    assert(st.line_text() =~= spans_text(st.spans));
    if i + 1 < st.done.len() {
        let j = i + 1;
        assert(is_full(spans_text(st.done[i]), spans_text(st.done[j]), limit));
    } else {
        assert(st.done.last() == st.done[i]);
    }
}

/// What holds of one line holds of all that are wrapped together: on a screen with columns, the text
/// and its styles are kept, and every line fits that screen as long as no character is wider.
pub proof fn law_wrapped_screens_fit(lines: Seq<Seq<SpanModel>>, limit: nat)
    requires
        limit > 0,
    ensures
        styled_lines(wrapped(lines, limit)) == styled_lines(lines),
        lines_text(wrapped(lines, limit)) == lines_text(lines),
        (forall|k: int| 0 <= k < lines.len() ==> chars_fit(#[trigger] lines[k], limit)) ==> forall|
            i: int,
        |
            0 <= i < wrapped(lines, limit).len() ==> total_columns(
                spans_text(#[trigger] wrapped(lines, limit)[i]),
            ) <= limit,
    decreases lines.len(),
{
    let all = wrapped(lines, limit);
    if lines.len() == 0 {
        assert(styled_lines(all) =~= styled_lines(lines));
        assert(lines_text(all) =~= lines_text(lines));
    } else {
        let front = lines.drop_last();
        let head = wrapped(front, limit);
        let tail = wrapped_line(lines.last(), limit);
        law_wrapped_screens_fit(front, limit);
        law_wrapping_keeps_text(lines.last(), limit);
        lemma_styled_lines_join(head, tail);
        assert(styled_lines(all) =~= styled_lines(lines));
        lemma_styled_lines(all);
        lemma_styled_lines(lines);
        if forall|k: int| 0 <= k < lines.len() ==> chars_fit(#[trigger] lines[k], limit) {
            assert forall|k: int| 0 <= k < front.len() implies chars_fit(
                #[trigger] front[k],
                limit,
            ) by {
                assert(front[k] == lines[k]);
            }
            assert(chars_fit(lines[lines.len() - 1], limit));
            law_wrapped_lines_fit(lines.last(), limit);
            assert forall|i: int| 0 <= i < all.len() implies total_columns(
                spans_text(#[trigger] all[i]),
            ) <= limit by {
                if i < head.len() {
                    assert(all[i] == head[i]);
                } else {
                    assert(all[i] == tail[i - head.len()]);
                }
            }
        }
    }
}

// ---- What markup looks like ----

/// No sign of inline markup stands in the text.
pub open spec fn is_plain(s: Seq<char>) -> bool {
    forall|i: int| 0 <= i < s.len() ==> #[trigger] s[i] != '`' && s[i] != '*' && s[i] != '_'
}

proof fn lemma_plain_run(s: Seq<char>, base: Style, i: int, j: int, st: InlineState)
    requires
        0 <= i <= j <= s.len(),
        is_plain(s.subrange(i, j)),
    ensures
        inline_from(s, base, i, st) == inline_from(
            s,
            base,
            j,
            InlineState { buf: st.buf + s.subrange(i, j), ..st },
        ),
    decreases j - i,
{
    if i == j {
        assert(st.buf + s.subrange(i, j) =~= st.buf);
    } else {
        assert(s.subrange(i, j)[0] == s[i]);
        assert forall|k: int| 0 <= k < s.subrange(i + 1, j).len() implies #[trigger] s.subrange(
            i + 1,
            j,
        )[k] != '`' && s.subrange(i + 1, j)[k] != '*' && s.subrange(i + 1, j)[k] != '_' by {
            assert(s.subrange(i, j)[k + 1] == s.subrange(i + 1, j)[k]);
        }
        lemma_plain_run(s, base, i + 1, j, InlineState { buf: st.buf.push(s[i]), ..st });
        assert(st.buf.push(s[i]) + s.subrange(i + 1, j) =~= st.buf + s.subrange(i, j));
    }
}

/// Text without markup is shown as it is. Text between two stars on each side is bold, between single
/// stars or lines below italic, and between backquotes yellow; the text around it keeps its style.
pub proof fn law_markup_is_shown(a: Seq<char>, b: Seq<char>, c: Seq<char>, base: Style)
    requires
        is_plain(a),
        is_plain(b),
        is_plain(c),
        a.len() > 0,
        b.len() > 0,
        c.len() > 0,
    ensures
        inline_spans(a, base) == seq![SpanModel { text: a, style: base }],
        inline_spans(a + seq!['*', '*'] + b + seq!['*', '*'] + c, base) == seq![
            SpanModel { text: a, style: base },
            SpanModel { text: b, style: Style { bold: true, ..base } },
            SpanModel { text: c, style: base },
        ],
        inline_spans(a + seq!['*'] + b + seq!['*'] + c, base) == seq![
            SpanModel { text: a, style: base },
            SpanModel { text: b, style: Style { italic: true, ..base } },
            SpanModel { text: c, style: base },
        ],
        inline_spans(a + seq!['_'] + b + seq!['_'] + c, base) == seq![
            SpanModel { text: a, style: base },
            SpanModel { text: b, style: Style { italic: true, ..base } },
            SpanModel { text: c, style: base },
        ],
        inline_spans(a + seq!['`'] + b + seq!['`'] + c, base) == seq![
            SpanModel { text: a, style: base },
            SpanModel { text: b, style: Style { fg: Some(Color::Yellow), ..base } },
            SpanModel { text: c, style: base },
        ],
        inline_spans(Seq::empty(), base) == seq![SpanModel { text: Seq::empty(), style: base }],
{
    lemma_plain_text(a, base);
    lemma_marked(a, b, c, base, seq!['*', '*']);
    lemma_marked(a, b, c, base, seq!['*']);
    lemma_marked(a, b, c, base, seq!['_']);
    lemma_marked(a, b, c, base, seq!['`']);
}

proof fn lemma_plain_text(a: Seq<char>, base: Style)
    requires
        is_plain(a),
        a.len() > 0,
    ensures
        inline_spans(a, base) == seq![SpanModel { text: a, style: base }],
{
    let n = a.len() as int;
    assert(a.subrange(0, n) =~= a);
    lemma_plain_run(a, base, 0, n, inline_start());
    assert(inline_start().buf + a =~= a);
    assert(inline_spans(a, base) =~= seq![SpanModel { text: a, style: base }]);
}

/// Text in bold, in italics or in the colour of code, by the sign around it.
spec fn marked_style(base: Style, sign: Seq<char>) -> Style {
    if sign.len() == 2 {
        Style { bold: true, ..base }
    } else if sign[0] == '`' {
        Style { fg: Some(Color::Yellow), ..base }
    } else {
        Style { italic: true, ..base }
    }
}

proof fn lemma_marked(a: Seq<char>, b: Seq<char>, c: Seq<char>, base: Style, sign: Seq<char>)
    requires
        is_plain(a),
        is_plain(b),
        is_plain(c),
        a.len() > 0,
        b.len() > 0,
        c.len() > 0,
        sign == seq!['*', '*'] || sign == seq!['*'] || sign == seq!['_'] || sign == seq!['`'],
    ensures
        inline_spans(a + sign + b + sign + c, base) == seq![
            SpanModel { text: a, style: base },
            SpanModel { text: b, style: marked_style(base, sign) },
            SpanModel { text: c, style: base },
        ],
{
    let s = a + sign + b + sign + c;
    let k = sign.len() as int;
    let (p, q, r, t) = (
        a.len() as int,
        a.len() + k,
        a.len() + k + b.len(),
        a.len() + k + b.len() + k,
    );
    let n = s.len() as int;
    let st = inline_start();
    assert(s.subrange(0, p) =~= a && s.subrange(q, r) =~= b && s.subrange(t, n) =~= c);
    lemma_plain_run(s, base, 0, p, st);
    assert(st.buf + a =~= a);
    assert(s[p] == sign[0] && s[r] == sign[0]);
    assert(s[q] == b[0] && s[t] == c[0]);
    assert(b[0] != '*' && c[0] != '*');
    if k == 2 {
        assert(s[p + 1] == '*' && s[r + 1] == '*');
    }
    let one = InlineState {
        done: seq![SpanModel { text: a, style: base }],
        buf: Seq::empty(),
        bold: k == 2,
        italic: k == 1 && sign[0] != '`',
        code: sign[0] == '`',
    };
    let first = InlineState { buf: a, ..st };
    assert(first.flushed(base).done =~= one.done);
    assert(inline_from(s, base, p, first) == inline_from(s, base, q, one));
    lemma_plain_run(s, base, q, r, one);
    assert(one.buf + b =~= b);
    let second = InlineState { buf: b, ..one };
    let two = InlineState {
        done: one.done.push(SpanModel { text: b, style: marked_style(base, sign) }),
        buf: Seq::empty(),
        bold: false,
        italic: false,
        code: false,
    };
    assert(second.flushed(base).done =~= two.done);
    assert(inline_from(s, base, r, second) == inline_from(s, base, t, two));
    lemma_plain_run(s, base, t, n, two);
    assert(two.buf + c =~= c);
    assert(inline_spans(s, base) =~= seq![
        SpanModel { text: a, style: base },
        SpanModel { text: b, style: marked_style(base, sign) },
        SpanModel { text: c, style: base },
    ]);
}

/// A line with one sign `#` in front is a yellow heading, with two a cyan one and with three a plain
/// one, all bold; with `> ` it is faint and set in, and with `- ` or `* ` it has a cyan bullet.
pub proof fn law_lines_are_headings_quotes_or_items(rest: Seq<char>, base: Style)
    ensures
        line_spans("# "@ + rest, base) == seq![
            SpanModel {
                text: rest,
                style: Style { fg: Some(Color::Yellow), bold: true, ..base },
            },
        ],
        line_spans("## "@ + rest, base) == seq![
            SpanModel { text: rest, style: Style { fg: Some(Color::Cyan), bold: true, ..base } },
        ],
        line_spans("### "@ + rest, base) == seq![
            SpanModel { text: rest, style: Style { bold: true, ..base } },
        ],
        line_spans("> "@ + rest, base) == seq![
            SpanModel {
                text: "  "@,
                style: Style { fg: None, bold: false, italic: false, dim: false },
            },
        ] + inline_spans(rest, Style { dim: true, ..base }),
        line_spans("- "@ + rest, base) == seq![
            SpanModel { text: "• "@, style: Style { fg: Some(Color::Cyan), ..base } },
        ] + inline_spans(rest, base),
        line_spans("* "@ + rest, base) == seq![
            SpanModel { text: "• "@, style: Style { fg: Some(Color::Cyan), ..base } },
        ] + inline_spans(rest, base),
{
    lemma_line_signs();
    lemma_sign_in_front("# "@, rest);
    lemma_sign_in_front("## "@, rest);
    lemma_sign_in_front("### "@, rest);
    lemma_sign_in_front("> "@, rest);
    lemma_sign_in_front("- "@, rest);
    lemma_sign_in_front("* "@, rest);
}

proof fn lemma_line_signs()
    ensures
        "# "@ == seq!['#', ' '],
        "## "@ == seq!['#', '#', ' '],
        "### "@ == seq!['#', '#', '#', ' '],
        "> "@ == seq!['>', ' '],
        "- "@ == seq!['-', ' '],
        "* "@ == seq!['*', ' '],
        "```"@ == seq!['`', '`', '`'],
{
    reveal_strlit("# ");
    reveal_strlit("## ");
    reveal_strlit("### ");
    reveal_strlit("> ");
    reveal_strlit("- ");
    reveal_strlit("* ");
    reveal_strlit("```");
    assert("# "@ =~= seq!['#', ' ']);
    assert("## "@ =~= seq!['#', '#', ' ']);
    assert("### "@ =~= seq!['#', '#', '#', ' ']);
    assert("> "@ =~= seq!['>', ' ']);
    assert("- "@ =~= seq!['-', ' ']);
    assert("* "@ =~= seq!['*', ' ']);
    assert("```"@ =~= seq!['`', '`', '`']);
}

proof fn lemma_sign_in_front(sign: Seq<char>, rest: Seq<char>)
    ensures
        text::after_prefix(sign + rest, sign) == Some(rest),
        forall|other: Seq<char>, i: int| #![trigger text::has_prefix(sign + rest, other), sign[i]]
            0 <= i < sign.len() && i < other.len() && sign[i] != other[i] ==> !text::has_prefix(
                sign + rest,
                other,
            ),
{
    let s = sign + rest;
    assert(s.take(sign.len() as int) =~= sign);
    assert(s.skip(sign.len() as int) =~= rest);
    assert forall|other: Seq<char>, i: int| #![trigger text::has_prefix(s, other), sign[i]]
        0 <= i < sign.len() && i < other.len() && sign[i] != other[i] implies !text::has_prefix(
        s,
        other,
    ) by {
        if text::has_prefix(s, other) {
            assert(s.take(other.len() as int)[i] == s[i]);
        }
    }
}

/// A line of none of these kinds is grey where it begins or ends a block of code, and otherwise shows
/// its markup.
pub proof fn law_other_lines_show_their_markup(s: Seq<char>, base: Style)
    requires
        s.len() > 0,
        s[0] != '#',
        s[0] != '>',
        s[0] != '-',
        s[0] != '*',
    ensures
        text::has_prefix(text::front_stripped(s, CharClass::White), "```"@) ==> line_spans(s, base)
            == seq![SpanModel { text: s, style: Style { fg: Some(Color::DarkGray), ..base } }],
        !text::has_prefix(text::front_stripped(s, CharClass::White), "```"@) ==> line_spans(s, base)
            == inline_spans(s, base),
{
    lemma_line_signs();
    assert forall|other: Seq<char>| other.len() > 0 && s[0] != other[0] implies
        !#[trigger] text::has_prefix(s, other) by {
        if text::has_prefix(s, other) {
            assert(s.take(other.len() as int)[0] == s[0]);
        }
    }
}

/// Pieces with anything but white space in them are counted one by one. A line is a row of a table
/// where it has the sign of one and begins or ends with it or parts two such pieces.
pub proof fn law_rows_have_their_sign(pieces: Seq<Seq<char>>, p: Seq<char>, line: Seq<char>)
    ensures
        filled(Seq::empty()) == 0,
        text::trimmed(p).len() > 0 ==> filled(pieces.push(p)) == filled(pieces) + 1,
        text::trimmed(p).len() == 0 ==> filled(pieces.push(p)) == filled(pieces),
        !text::trimmed(line).contains('|') ==> !is_row(line),
        text::trimmed(line).len() > 0 && (text::trimmed(line)[0] == '|' || text::trimmed(line).last()
            == '|') ==> is_row(line),
        text::trimmed(line).contains('|') && text::trimmed(line)[0] != '|' && text::trimmed(
            line,
        ).last() != '|' ==> (is_row(line) <==> filled(text::split_at_char(text::trimmed(line), '|'))
            >= 2),
{
    assert(pieces.push(p).drop_last() =~= pieces);
    let t = text::trimmed(line);
    if t.len() > 0 {
        assert(t.contains(t[0]));
        assert(t.contains(t.last()));
    }
}

/// The cells of a row stand between the signs, without the white space around them; those at the ends
/// of the row are its border.
pub proof fn law_cells_stand_between_the_signs(line: Seq<char>, inner: Seq<char>, i: int)
    requires
        inner.len() > 0,
        inner[0] != '|',
        inner.last() != '|',
        text::trimmed(line) == inner || text::trimmed(line) == seq!['|'] + inner + seq!['|'],
    ensures
        row_inner(line) == inner,
        cells_of(line).len() == text::split_at_char(inner, '|').len(),
        0 <= i < cells_of(line).len() ==> cells_of(line)[i] == text::trimmed(
            text::split_at_char(inner, '|')[i],
        ),
{
    let t = text::trimmed(line);
    let f = text::front_stripped(t, CharClass::Only('|'));
    text::lemma_front_gone(t, CharClass::Only('|'));
    text::lemma_back_gone(f, CharClass::Only('|'));
    let b = row_inner(line);
    if t == inner {
        assert(f.len() == t.len()) by {
            if f.len() < t.len() {
                assert(t[0] == '|');
            }
        }
        assert(f =~= inner);
        assert(b.len() == f.len()) by {
            if b.len() < f.len() {
                assert(f[f.len() - 1] == '|');
            }
        }
        assert(b =~= inner);
    } else {
        assert(t[0] == '|' && t[1] == inner[0]);
        assert(f.len() == t.len() - 1) by {
            if f.len() < t.len() - 1 {
                assert(t[1] == '|');
            }
            if f.len() == t.len() {
                assert(f[0] == t[0]);
            }
        }
        assert(f =~= inner + seq!['|']);
        assert(b.len() == inner.len()) by {
            if b.len() < inner.len() {
                assert(f[inner.len() - 1] == '|');
            }
            if b.len() == f.len() {
                assert(b.last() == '|');
            }
        }
        assert(b =~= inner);
    }
}

/// A row of rules is drawn as a line; every other row shows its cells, each with a blank behind it and
/// with a grey stroke between two.
pub proof fn law_rows_show_their_cells(
    line: Seq<char>,
    base: Style,
    cells: Seq<Seq<char>>,
    c: Seq<char>,
    i: int,
)
    ensures
        (forall|k: int, j: int|
            0 <= k < cells_of(line).len() && 0 <= j < cells_of(line)[k].len() ==> (
            #[trigger] cells_of(line)[k][j]) == '-' || cells_of(line)[k][j] == ':' || cells_of(
                line,
            )[k][j] == ' ') && (forall|k: int|
            0 <= k < cells_of(line).len() ==> (#[trigger] cells_of(line)[k]).len() > 0) ==> row_spans(
            line,
            base,
        ) == seq![
            SpanModel {
                text: Seq::new(row_inner(line).len(), |k: int| '─'),
                style: Style { fg: Some(Color::DarkGray), ..base },
            },
        ],
        0 <= i < cells_of(line).len() && (cells_of(line)[i].len() == 0 || exists|j: int|
            0 <= j < cells_of(line)[i].len() && (#[trigger] cells_of(line)[i][j]) != '-' && cells_of(
                line,
            )[i][j] != ':' && cells_of(line)[i][j] != ' ') ==> row_spans(line, base) == cell_spans(
            cells_of(line),
            base,
            cells_of(line).len() as int,
        ),
        cell_spans(cells, base, 0).len() == 0,
        0 < i <= cells.len() ==> cell_spans(cells, base, i).last() == (SpanModel {
            text: cells[i - 1] + " "@,
            style: base,
        }),
        cells.len() > 0 ==> cell_spans(cells, base, 1).len() == 1,
        1 < i <= cells.len() ==> cell_spans(cells, base, i).drop_last() == cell_spans(
            cells,
            base,
            i - 1,
        ).push(SpanModel { text: "│ "@, style: Style { fg: Some(Color::DarkGray), ..base } }),
{
    reveal_with_fuel(cell_spans, 2);
    let all = cells_of(line);
    if 0 <= i < all.len() && (all[i].len() == 0 || exists|j: int|
        0 <= j < all[i].len() && (#[trigger] all[i][j]) != '-' && all[i][j] != ':' && all[i][j] != ' ') {
        assert(!is_rule_cell(all[i]));
    }
    if 1 < i <= cells.len() {
        assert(cell_spans(cells, base, i).drop_last() =~= cell_spans(cells, base, i - 1).push(
            SpanModel { text: "│ "@, style: Style { fg: Some(Color::DarkGray), ..base } },
        ));
    }
}

/// An entry of the log shows who speaks, in their colour, on its first line, and is set in on the
/// others; only what people and the assistant say has markup.
pub proof fn law_entries_show_who_speaks(l: LogLineModel, i: int)
    ensures
        role_tag(Role::User) == "你"@,
        role_tag(Role::Assistant) == "拾光者"@,
        role_tag(Role::Tool) == "工具"@,
        role_tag(Role::System) == "系统"@,
        role_style(Role::User) == (Style {
            fg: Some(Color::Green),
            bold: false,
            italic: false,
            dim: false,
        }),
        role_style(Role::Assistant) == (Style {
            fg: Some(Color::White),
            bold: false,
            italic: false,
            dim: false,
        }),
        role_style(Role::Tool) == (Style {
            fg: Some(Color::Magenta),
            bold: false,
            italic: false,
            dim: false,
        }),
        role_style(Role::System) == (Style {
            fg: Some(Color::DarkGray),
            bold: false,
            italic: false,
            dim: false,
        }),
        entry_lines(l).len() == text::split_at_char(l.text, '\n').len(),
        0 <= i < entry_lines(l).len() ==> {
            let line = entry_lines(l)[i];
            let said = text::split_at_char(l.text, '\n')[i];
            let style = role_style(l.role);
            &&& i == 0 ==> line[0] == (SpanModel {
                text: role_tag(l.role) + ": "@,
                style: Style { bold: true, ..style },
            })
            &&& i > 0 ==> line[0] == (SpanModel {
                text: "  "@,
                style: Style { fg: None, bold: false, italic: false, dim: false },
            })
            &&& l.role == Role::Assistant || l.role == Role::User ==> line.drop_first() == line_spans(
                said,
                style,
            )
            &&& l.role == Role::Tool || l.role == Role::System ==> line.drop_first() == seq![
                SpanModel { text: said, style },
            ]
        },
{
    if 0 <= i < entry_lines(l).len() {
        let line = entry_lines(l)[i];
        let said = text::split_at_char(l.text, '\n')[i];
        let style = role_style(l.role);
        if l.role == Role::Assistant || l.role == Role::User {
            assert(line.drop_first() =~= line_spans(said, style));
        } else {
            assert(line.drop_first() =~= seq![SpanModel { text: said, style }]);
        }
    }
}

/// A character takes as many columns as the table of widths says, and none where it says nothing.
pub proof fn law_characters_take_their_columns(c: char)
    ensures
        char_columns(c) matches Some(n) ==> columns(c) == n,
        char_columns(c) is None ==> columns(c) == 0,
{
}

} // verus!
