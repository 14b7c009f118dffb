//! The conversation with a language model: requests, messages, and the events of a streamed reply.

use vstd::prelude::*;

use crate::text;

verus! {

// ---- Messages ----

/// A function that the model asks to have called.
pub struct FunctionCall {
    pub name: String,
    /// The arguments, as JSON text.
    pub arguments: Option<String>,
}

pub struct ToolCall {
    pub id: String,
    pub kind: String,
    pub function: FunctionCall,
}

pub struct Message {
    pub role: String,
    pub content: Option<String>,
    pub tool_calls: Option<Vec<ToolCall>>,
    pub tool_call_id: Option<String>,
    pub reasoning_content: Option<String>,
}

/// What a tool call says.
pub struct ToolCallModel {
    pub id: Seq<char>,
    pub kind: Seq<char>,
    pub name: Seq<char>,
    pub arguments: Option<Seq<char>>,
}

/// What a message says.
pub struct MessageModel {
    pub role: Seq<char>,
    pub content: Option<Seq<char>>,
    pub tool_calls: Option<Seq<ToolCallModel>>,
    pub tool_call_id: Option<Seq<char>>,
    pub reasoning_content: Option<Seq<char>>,
}

/// The contents of an optional string.
pub open spec fn opt_text(s: Option<String>) -> Option<Seq<char>> {
    match s {
        Some(t) => Some(t@),
        None => None,
    }
}

impl View for ToolCall {
    type V = ToolCallModel;

    open spec fn view(&self) -> ToolCallModel {
        ToolCallModel {
            id: self.id@,
            kind: self.kind@,
            name: self.function.name@,
            arguments: opt_text(self.function.arguments),
        }
    }
}

pub open spec fn call_models(calls: Seq<ToolCall>) -> Seq<ToolCallModel> {
    calls.map_values(|c: ToolCall| c@)
}

impl View for Message {
    type V = MessageModel;

    open spec fn view(&self) -> MessageModel {
        MessageModel {
            role: self.role@,
            content: opt_text(self.content),
            tool_calls: match self.tool_calls {
                Some(calls) => Some(call_models(calls@)),
                None => None,
            },
            tool_call_id: opt_text(self.tool_call_id),
            reasoning_content: opt_text(self.reasoning_content),
        }
    }
}

pub open spec fn message_models(messages: Seq<Message>) -> Seq<MessageModel> {
    messages.map_values(|m: Message| m@)
}

/// A message that holds text and nothing else.
pub open spec fn plain_message(role: Seq<char>, content: Seq<char>) -> MessageModel {
    MessageModel {
        role,
        content: Some(content),
        tool_calls: None,
        tool_call_id: None,
        reasoning_content: None,
    }
}

pub proof fn lemma_message_models_push(messages: Seq<Message>, m: Message)
    ensures
        message_models(messages.push(m)) == message_models(messages).push(m@),
{
    assert(message_models(messages.push(m)) =~= message_models(messages).push(m@));
}

pub fn copy_opt(s: &Option<String>) -> (r: Option<String>)
    ensures
        opt_text(r) == opt_text(*s),
{
    match s {
        Some(t) => Some(text::copy_text(t.as_str())),
        None => None,
    }
}

impl ToolCall {
    pub fn copy(&self) -> (r: ToolCall)
        ensures
            r@ == self@,
    {
        ToolCall {
            id: text::copy_text(self.id.as_str()),
            kind: text::copy_text(self.kind.as_str()),
            function: FunctionCall {
                name: text::copy_text(self.function.name.as_str()),
                arguments: copy_opt(&self.function.arguments),
            },
        }
    }
}

pub fn copy_calls(calls: &Vec<ToolCall>) -> (r: Vec<ToolCall>)
    ensures
        call_models(r@) == call_models(calls@),
{
    let mut out: Vec<ToolCall> = Vec::new();
    let mut i: usize = 0;
    while i < calls.len()
        invariant
            i <= calls@.len(),
            call_models(out@) == call_models(calls@.take(i as int)),
        decreases calls@.len() - i,
    {
        let c = calls[i].copy();
        let ghost before = out@;
        out.push(c);
        proof {
            assert(call_models(out@) =~= call_models(before).push(c@));
            assert(call_models(calls@.take(i + 1)) =~= call_models(calls@.take(i as int)).push(
                calls@[i as int]@,
            ));
        }
        i = i + 1;
    }
    assert(calls@.take(calls@.len() as int) == calls@);
    out
}

impl Message {
    /// A message that holds text and nothing else.
    pub fn plain(role: &str, content: String) -> (r: Message)
        ensures
            r@ == plain_message(role@, content@),
    {
        Message {
            role: text::copy_text(role),
            content: Some(content),
            tool_calls: None,
            tool_call_id: None,
            reasoning_content: None,
        }
    }

    pub fn copy(&self) -> (r: Message)
        ensures
            r@ == self@,
    {
        Message {
            role: text::copy_text(self.role.as_str()),
            content: copy_opt(&self.content),
            tool_calls: match &self.tool_calls {
                Some(calls) => Some(copy_calls(calls)),
                None => None,
            },
            tool_call_id: copy_opt(&self.tool_call_id),
            reasoning_content: copy_opt(&self.reasoning_content),
        }
    }
}

pub fn copy_messages(messages: &Vec<Message>) -> (r: Vec<Message>)
    ensures
        message_models(r@) == message_models(messages@),
{
    let mut out: Vec<Message> = Vec::new();
    let mut i: usize = 0;
    while i < messages.len()
        invariant
            i <= messages@.len(),
            message_models(out@) == message_models(messages@.take(i as int)),
        decreases messages@.len() - i,
    {
        let m = messages[i].copy();
        proof {
            lemma_message_models_push(out@, m);
            lemma_message_models_push(messages@.take(i as int), messages@[i as int]);
            assert(messages@.take(i + 1) == messages@.take(i as int).push(messages@[i as int]));
        }
        out.push(m);
        i = i + 1;
    }
    assert(messages@.take(messages@.len() as int) == messages@);
    out
}

// ---- Tools and requests ----

/// A tool as it is offered to the model, with the schema of its parameters.
pub struct ToolFunction {
    pub name: String,
    pub description: String,
    pub parameters: serde_json::Value,
}

pub struct Tool {
    pub kind: String,
    pub function: ToolFunction,
}

pub struct StreamOptions {
    pub include_usage: bool,
}

/// A request for a reply. The temperature is the bit pattern of a single-precision number.
pub struct ChatRequest {
    pub model: String,
    pub messages: Vec<Message>,
    pub tools: Vec<Tool>,
    pub temperature: Option<u32>,
    pub max_tokens: Option<u32>,
    pub stream: Option<bool>,
    pub stream_options: Option<StreamOptions>,
    pub reasoning_effort: Option<String>,
}

/// Token counts.
#[derive(Clone, Copy, PartialEq, Eq, Structural, Debug)]
pub struct Usage {
    pub prompt_tokens: u64,
    pub completion_tokens: u64,
    pub total_tokens: u64,
}

impl Default for Usage {
    fn default() -> (u: Usage)
        ensures
            u == Usage::zero(),
    {
        Usage { prompt_tokens: 0, completion_tokens: 0, total_tokens: 0 }
    }
}

impl Usage {
    pub open spec fn zero() -> Usage {
        Usage { prompt_tokens: 0, completion_tokens: 0, total_tokens: 0 }
    }

    /// Whether the sum with another count fits.
    pub open spec fn can_add(self, other: Usage) -> bool {
        &&& self.prompt_tokens + other.prompt_tokens <= u64::MAX
        &&& self.completion_tokens + other.completion_tokens <= u64::MAX
        &&& self.total_tokens + other.total_tokens <= u64::MAX
    }

    pub open spec fn sum(self, other: Usage) -> Usage {
        Usage {
            prompt_tokens: (self.prompt_tokens + other.prompt_tokens) as u64,
            completion_tokens: (self.completion_tokens + other.completion_tokens) as u64,
            total_tokens: (self.total_tokens + other.total_tokens) as u64,
        }
    }

    pub fn plus(&self, other: &Usage) -> (r: Usage)
        requires
            self.can_add(*other),
        ensures
            r == self.sum(*other),
    {
        Usage {
            prompt_tokens: self.prompt_tokens + other.prompt_tokens,
            completion_tokens: self.completion_tokens + other.completion_tokens,
            total_tokens: self.total_tokens + other.total_tokens,
        }
    }
}

// ---- Streamed replies ----

/// One increment of a streamed reply.
pub enum StreamEvent {
    Content(String),
    Reasoning(String),
    ToolCallDelta {
        index: u32,
        id: Option<String>,
        name: Option<String>,
        args_chunk: Option<String>,
    },
    Usage(Usage),
    /// The model stopped; the reason may be `stop`, `length` or `tool_calls`.
    Finish { reason: Option<String> },
    Done,
}

/// What an increment says.
pub enum StreamEventModel {
    Content(Seq<char>),
    Reasoning(Seq<char>),
    ToolCallDelta {
        index: u32,
        id: Option<Seq<char>>,
        name: Option<Seq<char>>,
        args_chunk: Option<Seq<char>>,
    },
    Usage(Usage),
    Finish { reason: Option<Seq<char>> },
    Done,
}

impl View for StreamEvent {
    type V = StreamEventModel;

    open spec fn view(&self) -> StreamEventModel {
        match *self {
            StreamEvent::Content(s) => StreamEventModel::Content(s@),
            StreamEvent::Reasoning(s) => StreamEventModel::Reasoning(s@),
            StreamEvent::ToolCallDelta { index, id, name, args_chunk } =>
                StreamEventModel::ToolCallDelta {
                index,
                id: opt_text(id),
                name: opt_text(name),
                args_chunk: opt_text(args_chunk),
            },
            StreamEvent::Usage(u) => StreamEventModel::Usage(u),
            StreamEvent::Finish { reason } => StreamEventModel::Finish { reason: opt_text(reason) },
            StreamEvent::Done => StreamEventModel::Done,
        }
    }
}

pub open spec fn event_models(events: Seq<StreamEvent>) -> Seq<StreamEventModel> {
    events.map_values(|e: StreamEvent| e@)
}

/// A fragment of a tool call.
pub struct ToolCallDelta {
    pub index: u32,
    pub id: Option<String>,
    pub name: Option<String>,
    pub arguments: Option<String>,
}

impl ToolCallDelta {
    pub open spec fn event(self) -> StreamEventModel {
        StreamEventModel::ToolCallDelta {
            index: self.index,
            id: opt_text(self.id),
            name: opt_text(self.name),
            args_chunk: opt_text(self.arguments),
        }
    }
}

pub struct StreamChoice {
    pub content: Option<String>,
    pub reasoning_content: Option<String>,
    pub tool_calls: Option<Vec<ToolCallDelta>>,
    pub finish_reason: Option<String>,
}

/// One frame of a streamed reply.
pub struct StreamChunk {
    pub choices: Vec<StreamChoice>,
    pub usage: Option<Usage>,
}

impl StreamChoice {
    pub open spec fn content_events(self) -> Seq<StreamEventModel> {
        match self.content {
            Some(s) => seq![StreamEventModel::Content(s@)],
            None => seq![],
        }
    }

    pub open spec fn reasoning_events(self) -> Seq<StreamEventModel> {
        match self.reasoning_content {
            Some(s) => seq![StreamEventModel::Reasoning(s@)],
            None => seq![],
        }
    }

    pub open spec fn call_events(self) -> Seq<StreamEventModel> {
        match self.tool_calls {
            Some(calls) => calls@.map_values(|d: ToolCallDelta| d.event()),
            None => seq![],
        }
    }

    pub open spec fn finish_events(self) -> Seq<StreamEventModel> {
        match self.finish_reason {
            Some(s) => seq![StreamEventModel::Finish { reason: Some(s@) }],
            None => seq![],
        }
    }

    /// The increments of one choice: content, reasoning, tool call fragments, and the end.
    pub open spec fn events(self) -> Seq<StreamEventModel> {
        self.content_events() + self.reasoning_events() + self.call_events() + self.finish_events()
    }
}

/// The increments of several choices, one choice after another.
pub open spec fn choice_events(choices: Seq<StreamChoice>) -> Seq<StreamEventModel>
    decreases choices.len(),
{
    if choices.len() == 0 {
        Seq::empty()
    } else {
        choice_events(choices.drop_last()) + choices.last().events()
    }
}

impl StreamChunk {
    /// The increments of a frame: those of its choices, then the token counts.
    pub open spec fn events(self) -> Seq<StreamEventModel> {
        let usage = match self.usage {
            Some(u) => seq![StreamEventModel::Usage(u)],
            None => seq![],
        };
        choice_events(self.choices@) + usage
    }
}

fn push_event(out: &mut Vec<StreamEvent>, e: StreamEvent)
    ensures
        event_models(final(out)@) == event_models(old(out)@).push(e@),
{
    out.push(e);
    assert(event_models(out@) =~= event_models(old(out)@).push(e@));
}

fn push_choice_events(out: &mut Vec<StreamEvent>, choice: &StreamChoice)
    ensures
        event_models(final(out)@) == event_models(old(out)@) + choice.events(),
{
    let ghost start = event_models(out@);
    if let Some(s) = &choice.content {
        push_event(out, StreamEvent::Content(text::copy_text(s.as_str())));
    }
    let ghost content = choice.content_events();
    assert(event_models(out@) =~= start + content);
    if let Some(s) = &choice.reasoning_content {
        push_event(out, StreamEvent::Reasoning(text::copy_text(s.as_str())));
    }
    let ghost reasoning = choice.reasoning_events();
    assert(event_models(out@) =~= start + content + reasoning);
    let ghost calls = choice.call_events();
    if let Some(deltas) = &choice.tool_calls {
        let mut i: usize = 0;
        while i < deltas.len()
            invariant
                i <= deltas@.len(),
                calls == deltas@.map_values(|d: ToolCallDelta| d.event()),
                event_models(out@) =~= start + content + reasoning + calls.take(i as int),
            decreases deltas@.len() - i,
        {
            let d = &deltas[i];
            push_event(
                out,
                StreamEvent::ToolCallDelta {
                    index: d.index,
                    id: copy_opt(&d.id),
                    name: copy_opt(&d.name),
                    args_chunk: copy_opt(&d.arguments),
                },
            );
            assert(calls.take(i + 1) == calls.take(i as int).push(d.event()));
            i = i + 1;
        }
        assert(calls.take(calls.len() as int) == calls);
    }
    assert(event_models(out@) =~= start + content + reasoning + calls);
    if let Some(s) = &choice.finish_reason {
        push_event(out, StreamEvent::Finish { reason: Some(text::copy_text(s.as_str())) });
    }
    assert(event_models(out@) =~= start + choice.events());
}

impl StreamChunk {
    /// The increments that a frame brings.
    pub fn into_events(&self) -> (r: Vec<StreamEvent>)
        ensures
            event_models(r@) == self.events(),
    {
        let mut out: Vec<StreamEvent> = Vec::new();
        let mut i: usize = 0;
        assert(event_models(out@) =~= choice_events(self.choices@.take(0)));
        while i < self.choices.len()
            invariant
                i <= self.choices@.len(),
                event_models(out@) == choice_events(self.choices@.take(i as int)),
            decreases self.choices@.len() - i,
        {
            push_choice_events(&mut out, &self.choices[i]);
            proof {
                let now = self.choices@.take(i + 1);
                assert(now.drop_last() == self.choices@.take(i as int));
                assert(now.last() == self.choices@[i as int]);
            }
            i = i + 1;
        }
        assert(self.choices@.take(self.choices@.len() as int) == self.choices@);
        if let Some(u) = &self.usage {
            push_event(&mut out, StreamEvent::Usage(*u));
        }
        assert(event_models(out@) =~= self.events());
        out
    }
}

/// What was used adds up, each count for itself.
pub proof fn law_usage_adds_up(a: Usage, b: Usage)
    requires
        a.can_add(b),
    ensures
        a.sum(b).prompt_tokens == a.prompt_tokens + b.prompt_tokens,
        a.sum(b).completion_tokens == a.completion_tokens + b.completion_tokens,
        a.sum(b).total_tokens == a.total_tokens + b.total_tokens,
        a.sum(Usage::zero()) == a,
{
}

/// A message of text has its role and its text and nothing else.
pub proof fn law_plain_messages_hold_text(role: Seq<char>, content: Seq<char>)
    ensures
        plain_message(role, content).role == role,
        plain_message(role, content).content == Some(content),
        plain_message(role, content).tool_calls is None,
        plain_message(role, content).tool_call_id is None,
        plain_message(role, content).reasoning_content is None,
{
}

/// What a choice of a reply holds comes out in order: text, thoughts, pieces of calls, and why it
/// ended; what it does not hold does not come out. The choices come one behind the other, and the
/// counts last.
pub proof fn law_events_come_in_order(
    c: StreamChoice,
    before: Seq<StreamChoice>,
    chunk: StreamChunk,
    i: int,
)
    ensures
        ({
            let texts: int = if c.content is Some {
                1
            } else {
                0
            };
            let thoughts: int = if c.reasoning_content is Some {
                1
            } else {
                0
            };
            let calls: int = match c.tool_calls {
                Some(v) => v@.len() as int,
                None => 0,
            };
            let ends: int = if c.finish_reason is Some {
                1
            } else {
                0
            };
            let e = c.events();
            &&& e.len() == texts + thoughts + calls + ends
            &&& c.content matches Some(s) ==> e[0] == StreamEventModel::Content(s@)
            &&& c.reasoning_content matches Some(s) ==> e[texts] == StreamEventModel::Reasoning(s@)
            &&& c.tool_calls matches Some(v) ==> (0 <= i < v@.len() ==> e[texts + thoughts + i] == (
            StreamEventModel::ToolCallDelta {
                index: v@[i].index,
                id: opt_text(v@[i].id),
                name: opt_text(v@[i].name),
                args_chunk: opt_text(v@[i].arguments),
            }))
            &&& c.finish_reason matches Some(s) ==> e.last() == (StreamEventModel::Finish {
                reason: Some(s@),
            })
        }),
        choice_events(Seq::empty()).len() == 0,
        choice_events(before.push(c)) == choice_events(before) + c.events(),
        chunk.usage is None ==> chunk.events() == choice_events(chunk.choices@),
        chunk.usage matches Some(u) ==> chunk.events() == choice_events(chunk.choices@).push(
            StreamEventModel::Usage(u),
        ),
{
    assert(before.push(c).drop_last() =~= before);
}

} // verus!
