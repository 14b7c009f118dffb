//! One turn of the agent: what is done with each event of a streamed reply, when a broken reply is
//! asked for again, and what a finished reply leaves in the session.

use vstd::prelude::*;

use crate::llm;
use crate::llm::{
    FunctionCall, Message, MessageModel, StreamEvent, StreamEventModel, ToolCall, ToolCallModel,
    Usage,
};
use crate::session::{Session, SessionModel};
use crate::text;

verus! {

/// How often a reply is asked for again, for each of the three reasons.
pub const RETRIES: u32 = 3;

/// How many replies a turn may take.
pub const MAX_STEPS: u32 = 20;

pub const CANCELLED: &'static str = "已取消";

pub const NO_DATA: &'static str = "LLM 流式连接中断（未收到数据）";

pub const BROKEN_IN_CALL: &'static str = "LLM 流在工具调用中途中断且重试用尽；请检查网络或调大 config.toml [llm] max_tokens";

pub const CUT_IN_CALL: &'static str = "输出在工具调用中途被 max_tokens 截断（已重试 3 次）；请调大 config.toml [llm] max_tokens 或让模型精简工具参数";

pub const TOO_MANY_STEPS: &'static str = "agent 循环超过 20 步，疑似死循环";

pub const GO_ON: &'static str = "继续，从中断处接着输出，不要重复已输出的内容。";

pub const CALL_AGAIN: &'static str = "你上一条回复中的工具调用参数因输出长度限制被截断，已丢弃。请重新完整调用该工具：参数必须完整合法，内容尽量精简（如会话记忆压缩到关键信息即可），不要重复输出之前已确认的正文。";

// ---- Tool calls that are still coming in ----

/// A tool call as far as it has come in.
pub struct ToolCallAcc {
    pub index: u32,
    pub id: String,
    pub name: String,
    pub args: String,
}

pub struct ToolCallAccModel {
    pub index: u32,
    pub id: Seq<char>,
    pub name: Seq<char>,
    pub args: Seq<char>,
}

impl View for ToolCallAcc {
    type V = ToolCallAccModel;

    open spec fn view(&self) -> ToolCallAccModel {
        ToolCallAccModel { index: self.index, id: self.id@, name: self.name@, args: self.args@ }
    }
}

pub open spec fn acc_models(accs: Seq<ToolCallAcc>) -> Seq<ToolCallAccModel> {
    accs.map_values(|a: ToolCallAcc| a@)
}

pub open spec fn or_empty(s: Option<Seq<char>>) -> Seq<char> {
    match s {
        Some(t) => t,
        None => Seq::empty(),
    }
}

impl ToolCallAccModel {
    /// The call with a further fragment: a new id or name replaces the old, arguments go on.
    pub open spec fn with_fragment(
        self,
        id: Option<Seq<char>>,
        name: Option<Seq<char>>,
        args: Option<Seq<char>>,
    ) -> ToolCallAccModel {
        ToolCallAccModel {
            index: self.index,
            id: match id {
                Some(s) => s,
                None => self.id,
            },
            name: match name {
                Some(s) => s,
                None => self.name,
            },
            args: self.args + or_empty(args),
        }
    }

    /// The finished call.
    pub open spec fn call(self) -> ToolCallModel {
        ToolCallModel {
            id: self.id,
            kind: "function"@,
            name: self.name,
            arguments: if self.args.len() == 0 {
                None
            } else {
                Some(self.args)
            },
        }
    }
}

/// Where the call with an index stands, if it does; the first such place.
pub open spec fn acc_position(accs: Seq<ToolCallAccModel>, index: u32) -> Option<int>
    decreases accs.len(),
{
    if accs.len() == 0 {
        None
    } else {
        match acc_position(accs.drop_last(), index) {
            Some(i) => Some(i),
            None => if accs.last().index == index {
                Some(accs.len() - 1)
            } else {
                None
            },
        }
    }
}

/// The calls after a further fragment has come in.
pub open spec fn accs_with_fragment(
    accs: Seq<ToolCallAccModel>,
    index: u32,
    id: Option<Seq<char>>,
    name: Option<Seq<char>>,
    args: Option<Seq<char>>,
) -> Seq<ToolCallAccModel> {
    match acc_position(accs, index) {
        Some(i) => accs.update(i, accs[i].with_fragment(id, name, args)),
        None => accs.push(
            ToolCallAccModel {
                index,
                id: or_empty(id),
                name: or_empty(name),
                args: or_empty(args),
            },
        ),
    }
}

proof fn lemma_acc_position(accs: Seq<ToolCallAccModel>, index: u32, n: int)
    requires
        0 <= n <= accs.len(),
        acc_position(accs.take(n), index) is Some,
    ensures
        acc_position(accs, index) == acc_position(accs.take(n), index),
    decreases accs.len() - n,
{
    if n < accs.len() {
        assert(accs.take(n + 1).drop_last() == accs.take(n));
        lemma_acc_position(accs, index, n + 1);
    } else {
        assert(accs.take(n) == accs);
    }
}

fn find_acc(accs: &Vec<ToolCallAcc>, index: u32) -> (r: Option<usize>)
    ensures
        match r {
            Some(i) => acc_position(acc_models(accs@), index) == Some(i as int) && i < accs@.len(),
            None => acc_position(acc_models(accs@), index) is None,
        },
{
    let ghost all = acc_models(accs@);
    let mut i: usize = 0;
    while i < accs.len()
        invariant
            i <= accs@.len(),
            all == acc_models(accs@),
            acc_position(all.take(i as int), index) is None,
        decreases accs@.len() - i,
    {
        proof {
            assert(all.take(i + 1).drop_last() == all.take(i as int));
            assert(all.take(i + 1).last() == accs@[i as int]@);
        }
        if accs[i].index == index {
            proof {
                lemma_acc_position(all, index, i + 1);
            }
            return Some(i);
        }
        i = i + 1;
    }
    assert(all.take(all.len() as int) == all);
    None
}

fn text_or_empty(s: &Option<String>) -> (r: String)
    ensures
        r@ == or_empty(llm::opt_text(*s)),
{
    match s {
        Some(t) => text::copy_text(t.as_str()),
        None => String::new(),
    }
}

fn add_fragment(
    accs: &mut Vec<ToolCallAcc>,
    index: u32,
    id: &Option<String>,
    name: &Option<String>,
    args: &Option<String>,
)
    ensures
        acc_models(final(accs)@) == accs_with_fragment(
            acc_models(old(accs)@),
            index,
            llm::opt_text(*id),
            llm::opt_text(*name),
            llm::opt_text(*args),
        ),
{
    let ghost before = acc_models(accs@);
    match find_acc(accs, index) {
        Some(i) => {
            let old_acc = &accs[i];
            let mut args_text = text::copy_text(old_acc.args.as_str());
            let more = text_or_empty(args);
            args_text.append(more.as_str());
            let acc = ToolCallAcc {
                index: old_acc.index,
                id: match id {
                    Some(s) => text::copy_text(s.as_str()),
                    None => text::copy_text(old_acc.id.as_str()),
                },
                name: match name {
                    Some(s) => text::copy_text(s.as_str()),
                    None => text::copy_text(old_acc.name.as_str()),
                },
                args: args_text,
            };
            accs.set(i, acc);
            assert(acc_models(accs@) =~= before.update(i as int, acc@));
        },
        None => {
            let acc = ToolCallAcc {
                index,
                id: text_or_empty(id),
                name: text_or_empty(name),
                args: text_or_empty(args),
            };
            accs.push(acc);
            assert(acc_models(accs@) =~= before.push(acc@));
        },
    }
}

// ---- A reply that is coming in ----

/// What has come in of a reply, over all the requests that it took so far.
pub struct Reply {
    pub content: String,
    pub reasoning: String,
    pub accs: Vec<ToolCallAcc>,
    /// The tokens of the running request.
    pub call_usage: Usage,
    /// The tokens of the requests before it.
    pub usage_sum: Usage,
    pub continuations: u32,
    pub tool_tries: u32,
    pub stream_attempts: u32,
    pub last_err: Option<String>,
    /// The messages that the request has beyond those of the session.
    pub extra: Vec<Message>,
}

pub struct ReplyModel {
    pub content: Seq<char>,
    pub reasoning: Seq<char>,
    pub accs: Seq<ToolCallAccModel>,
    pub call_usage: Usage,
    pub usage_sum: Usage,
    pub continuations: u32,
    pub tool_tries: u32,
    pub stream_attempts: u32,
    pub last_err: Option<Seq<char>>,
    pub extra: Seq<MessageModel>,
}

impl View for Reply {
    type V = ReplyModel;

    open spec fn view(&self) -> ReplyModel {
        ReplyModel {
            content: self.content@,
            reasoning: self.reasoning@,
            accs: acc_models(self.accs@),
            call_usage: self.call_usage,
            usage_sum: self.usage_sum,
            continuations: self.continuations,
            tool_tries: self.tool_tries,
            stream_attempts: self.stream_attempts,
            last_err: llm::opt_text(self.last_err),
            extra: llm::message_models(self.extra@),
        }
    }
}

/// What a stream brings: that it could not be opened, an increment, a failure, or its end without
/// an end mark.
pub enum StreamInput {
    OpenFailed(String),
    Event(StreamEvent),
    Failed(String),
    Ended,
}

pub enum StreamInputModel {
    OpenFailed(Seq<char>),
    Event(StreamEventModel),
    Failed(Seq<char>),
    Ended,
}

impl View for StreamInput {
    type V = StreamInputModel;

    open spec fn view(&self) -> StreamInputModel {
        match *self {
            StreamInput::OpenFailed(e) => StreamInputModel::OpenFailed(e@),
            StreamInput::Event(e) => StreamInputModel::Event(e@),
            StreamInput::Failed(e) => StreamInputModel::Failed(e@),
            StreamInput::Ended => StreamInputModel::Ended,
        }
    }
}

/// Why a stream is read no further.
#[derive(Clone, Copy, PartialEq, Eq, Structural, Debug)]
pub enum Stop {
    /// The end mark came.
    Completed,
    /// Nothing came: the same request is due again.
    Retry,
    /// Text came and broke off: it is to be continued.
    Continue,
    /// A tool call broke off: it is to be made again.
    ToolRetry,
    /// A tool call broke off once too often.
    GiveUp,
}

impl ReplyModel {
    pub open spec fn fresh() -> ReplyModel {
        ReplyModel {
            content: Seq::empty(),
            reasoning: Seq::empty(),
            accs: Seq::empty(),
            call_usage: Usage::zero(),
            usage_sum: Usage::zero(),
            continuations: 0,
            tool_tries: 0,
            stream_attempts: 0,
            last_err: None,
            extra: Seq::empty(),
        }
    }

    /// What a stream that broke off calls for.
    pub open spec fn broken(self) -> Stop {
        if self.accs.len() == 0 && self.content.len() == 0 {
            Stop::Retry
        } else if self.accs.len() == 0 {
            Stop::Continue
        } else if self.tool_tries < RETRIES {
            Stop::ToolRetry
        } else {
            Stop::GiveUp
        }
    }

    /// The reply after an input.
    pub open spec fn taking(self, input: StreamInputModel) -> ReplyModel {
        match input {
            StreamInputModel::OpenFailed(e) => ReplyModel { last_err: Some(e), ..self },
            StreamInputModel::Failed(e) => ReplyModel { last_err: Some(e), ..self },
            StreamInputModel::Ended => match self.broken() {
                Stop::Retry => ReplyModel { last_err: Some(NO_DATA@), ..self },
                Stop::GiveUp => ReplyModel { last_err: Some(BROKEN_IN_CALL@), ..self },
                _ => self,
            },
            StreamInputModel::Event(e) => match e {
                StreamEventModel::Content(s) => ReplyModel { content: self.content + s, ..self },
                StreamEventModel::Reasoning(s) => ReplyModel {
                    reasoning: self.reasoning + s,
                    ..self
                },
                StreamEventModel::ToolCallDelta { index, id, name, args_chunk } => ReplyModel {
                    accs: accs_with_fragment(self.accs, index, id, name, args_chunk),
                    ..self
                },
                StreamEventModel::Usage(u) => ReplyModel { call_usage: u, ..self },
                StreamEventModel::Finish { reason } => if reason == Some("length"@)
                    && self.broken() == Stop::GiveUp {
                    ReplyModel { last_err: Some(CUT_IN_CALL@), ..self }
                } else {
                    self
                },
                StreamEventModel::Done => self,
            },
        }
    }

    /// Whether reading ends with an input, and why.
    pub open spec fn stop(self, input: StreamInputModel) -> Option<Stop> {
        match input {
            StreamInputModel::OpenFailed(_) => Some(Stop::Retry),
            StreamInputModel::Failed(_) => Some(self.broken()),
            StreamInputModel::Ended => Some(self.broken()),
            StreamInputModel::Event(e) => match e {
                StreamEventModel::Done => Some(Stop::Completed),
                StreamEventModel::Finish { reason } => if reason == Some("length"@)
                    && self.broken() != Stop::Retry {
                    Some(self.broken())
                } else {
                    None
                },
                _ => None,
            },
        }
    }
}

impl Reply {
    pub fn new() -> (r: Reply)
        ensures
            r@ == ReplyModel::fresh(),
    {
        let r = Reply {
            content: String::new(),
            reasoning: String::new(),
            accs: Vec::new(),
            call_usage: Usage::default(),
            usage_sum: Usage::default(),
            continuations: 0,
            tool_tries: 0,
            stream_attempts: 0,
            last_err: None,
            extra: Vec::new(),
        };
        assert(r@.accs =~= ReplyModel::fresh().accs);
        assert(r@.extra =~= ReplyModel::fresh().extra);
        r
    }

    fn broken_stop(&self) -> (s: Stop)
        ensures
            s == self@.broken(),
    {
        if self.accs.len() == 0 && text::char_count(self.content.as_str()) == 0 {
            Stop::Retry
        } else if self.accs.len() == 0 {
            Stop::Continue
        } else if self.tool_tries < RETRIES {
            Stop::ToolRetry
        } else {
            Stop::GiveUp
        }
    }

    /// Takes one input in; says whether reading ends with it, and why.
    pub fn take(&mut self, input: &StreamInput) -> (stop: Option<Stop>)
        ensures
            final(self)@ == old(self)@.taking(input@),
            stop == old(self)@.stop(input@),
    {
        match input {
            StreamInput::OpenFailed(e) => {
                self.last_err = Some(text::copy_text(e.as_str()));
                Some(Stop::Retry)
            },
            StreamInput::Failed(e) => {
                self.last_err = Some(text::copy_text(e.as_str()));
                Some(self.broken_stop())
            },
            StreamInput::Ended => {
                let stop = self.broken_stop();
                if stop == Stop::Retry {
                    self.last_err = Some(text::copy_text(NO_DATA));
                } else if stop == Stop::GiveUp {
                    self.last_err = Some(text::copy_text(BROKEN_IN_CALL));
                }
                Some(stop)
            },
            StreamInput::Event(ev) => match ev {
                StreamEvent::Content(s) => {
                    self.content.append(s.as_str());
                    None
                },
                StreamEvent::Reasoning(s) => {
                    self.reasoning.append(s.as_str());
                    None
                },
                StreamEvent::ToolCallDelta { index, id, name, args_chunk } => {
                    add_fragment(&mut self.accs, *index, id, name, args_chunk);
                    None
                },
                StreamEvent::Usage(u) => {
                    self.call_usage = *u;
                    None
                },
                StreamEvent::Finish { reason } => {
                    let cut = match reason {
                        Some(r) => text::same(r.as_str(), "length"),
                        None => false,
                    };
                    let stop = self.broken_stop();
                    if cut && stop != Stop::Retry {
                        if stop == Stop::GiveUp {
                            self.last_err = Some(text::copy_text(CUT_IN_CALL));
                        }
                        Some(stop)
                    } else {
                        None
                    }
                },
                StreamEvent::Done => Some(Stop::Completed),
            },
        }
    }
}

// ---- What inputs come to ----

impl ReplyModel {
    /// The reply after inputs, one after the other.
    pub open spec fn reading(self, inputs: Seq<StreamInputModel>) -> ReplyModel
        decreases inputs.len(),
    {
        if inputs.len() == 0 {
            self
        } else {
            self.reading(inputs.drop_last()).taking(inputs.last())
        }
    }
}

/// A fragment of a tool call, where an input is one.
pub struct Fragment {
    pub index: u32,
    pub id: Option<Seq<char>>,
    pub name: Option<Seq<char>>,
    pub args: Option<Seq<char>>,
}

pub open spec fn fragment_in(input: StreamInputModel) -> Option<Fragment> {
    match input {
        StreamInputModel::Event(e) => match e {
            StreamEventModel::ToolCallDelta { index, id, name, args_chunk } => Some(
                Fragment { index, id, name, args: args_chunk },
            ),
            _ => None,
        },
        _ => None,
    }
}

/// The arguments that came with an index, one behind the other.
pub open spec fn arguments_with(inputs: Seq<StreamInputModel>, index: u32) -> Seq<char>
    decreases inputs.len(),
{
    if inputs.len() == 0 {
        Seq::empty()
    } else {
        let before = arguments_with(inputs.drop_last(), index);
        match fragment_in(inputs.last()) {
            Some(f) => if f.index == index && f.args is Some {
                before + f.args->Some_0
            } else {
                before
            },
            None => before,
        }
    }
}

/// The last id that came with an index.
pub open spec fn id_with(inputs: Seq<StreamInputModel>, index: u32) -> Seq<char>
    decreases inputs.len(),
{
    if inputs.len() == 0 {
        Seq::empty()
    } else {
        match fragment_in(inputs.last()) {
            Some(f) => if f.index == index && f.id is Some {
                f.id->Some_0
            } else {
                id_with(inputs.drop_last(), index)
            },
            None => id_with(inputs.drop_last(), index),
        }
    }
}

/// The last name that came with an index.
pub open spec fn name_with(inputs: Seq<StreamInputModel>, index: u32) -> Seq<char>
    decreases inputs.len(),
{
    if inputs.len() == 0 {
        Seq::empty()
    } else {
        match fragment_in(inputs.last()) {
            Some(f) => if f.index == index && f.name is Some {
                f.name->Some_0
            } else {
                name_with(inputs.drop_last(), index)
            },
            None => name_with(inputs.drop_last(), index),
        }
    }
}

/// The different indices of the fragments among inputs, in the order in which they first came.
pub open spec fn indices_in(inputs: Seq<StreamInputModel>) -> Seq<u32>
    decreases inputs.len(),
{
    if inputs.len() == 0 {
        Seq::empty()
    } else {
        let before = indices_in(inputs.drop_last());
        match fragment_in(inputs.last()) {
            Some(f) => if before.contains(f.index) {
                before
            } else {
                before.push(f.index)
            },
            None => before,
        }
    }
}

/// The text among inputs, one piece behind the other.
pub open spec fn text_in(inputs: Seq<StreamInputModel>) -> Seq<char>
    decreases inputs.len(),
{
    if inputs.len() == 0 {
        Seq::empty()
    } else {
        match inputs.last() {
            StreamInputModel::Event(StreamEventModel::Content(s)) => text_in(inputs.drop_last()) + s,
            _ => text_in(inputs.drop_last()),
        }
    }
}

/// The thoughts among inputs, one piece behind the other.
pub open spec fn thoughts_in(inputs: Seq<StreamInputModel>) -> Seq<char>
    decreases inputs.len(),
{
    if inputs.len() == 0 {
        Seq::empty()
    } else {
        match inputs.last() {
            StreamInputModel::Event(StreamEventModel::Reasoning(s)) => thoughts_in(
                inputs.drop_last(),
            ) + s,
            _ => thoughts_in(inputs.drop_last()),
        }
    }
}

proof fn lemma_acc_found(accs: Seq<ToolCallAccModel>, index: u32)
    ensures
        match acc_position(accs, index) {
            Some(i) => 0 <= i < accs.len() && accs[i].index == index && forall|j: int|
                0 <= j < i ==> (#[trigger] accs[j]).index != index,
            None => forall|j: int| 0 <= j < accs.len() ==> (#[trigger] accs[j]).index != index,
        },
    decreases accs.len(),
{
    if accs.len() > 0 {
        let front = accs.drop_last();
        lemma_acc_found(front, index);
        assert forall|j: int| 0 <= j < front.len() implies front[j] == accs[j] by {}
    }
}

/// A fragment goes to the one call that has its index: its arguments are added there, and its id and
/// name count from then on. Where no call has the index, a call with just this fragment is added
/// behind the others. Every other call, and whatever else is in the reply, stays as it was.
pub proof fn law_fragments_go_to_their_call(r: ReplyModel, input: StreamInputModel)
    requires
        fragment_in(input) is Some,
        forall|i: int, j: int|
            0 <= i < j < r.accs.len() ==> (#[trigger] r.accs[i]).index != (
            #[trigger] r.accs[j]).index,
    ensures
        ({
            let f = fragment_in(input)->Some_0;
            let calls = r.taking(input).accs;
            let known = exists|i: int| 0 <= i < r.accs.len() && (#[trigger] r.accs[i]).index == f.index;
            &&& calls.len() == r.accs.len() + (if known {
                0int
            } else {
                1
            })
            &&& forall|i: int|
                0 <= i < r.accs.len() && (#[trigger] r.accs[i]).index != f.index ==> calls[i]
                    == r.accs[i]
            &&& forall|i: int|
                0 <= i < r.accs.len() && (#[trigger] r.accs[i]).index == f.index ==> {
                    &&& calls[i].index == f.index
                    &&& calls[i].args == (match f.args {
                        Some(s) => r.accs[i].args + s,
                        None => r.accs[i].args,
                    })
                    &&& calls[i].id == (match f.id {
                        Some(s) => s,
                        None => r.accs[i].id,
                    })
                    &&& calls[i].name == (match f.name {
                        Some(s) => s,
                        None => r.accs[i].name,
                    })
                }
            &&& !known ==> {
                &&& calls.last().index == f.index
                &&& calls.last().args == (match f.args {
                    Some(s) => s,
                    None => Seq::empty(),
                })
                &&& calls.last().id == (match f.id {
                    Some(s) => s,
                    None => Seq::empty(),
                })
                &&& calls.last().name == (match f.name {
                    Some(s) => s,
                    None => Seq::empty(),
                })
            }
            &&& r.taking(input) == (ReplyModel { accs: calls, ..r })
        }),
{
    let f = fragment_in(input)->Some_0;
    lemma_acc_found(r.accs, f.index);
    let calls = r.taking(input).accs;
    match acc_position(r.accs, f.index) {
        Some(i) => {
            assert(calls[i].args =~= (match f.args {
                Some(s) => r.accs[i].args + s,
                None => r.accs[i].args,
            }));
            assert forall|j: int| 0 <= j < r.accs.len() && (#[trigger] r.accs[j]).index
                == f.index implies j == i by {
                if j < i {
                    assert(r.accs[j].index != r.accs[i].index);
                } else if i < j {
                    assert(r.accs[i].index != r.accs[j].index);
                }
            }
        },
        None => {},
    }
}

/// Whatever comes in, the calls of a reply are those of the different indices that came, in the
/// order in which they first came; each has the arguments that came with its index, one behind the
/// other and nothing else, and the last id and name that came with it. The text and the thoughts are
/// the pieces that came, one behind the other.
pub proof fn law_replies_are_put_together(r: ReplyModel, inputs: Seq<StreamInputModel>)
    requires
        r.accs.len() == 0,
    ensures
        ({
            let after = r.reading(inputs);
            let indices = indices_in(inputs);
            &&& after.accs.len() == indices.len()
            &&& forall|i: int|
                0 <= i < indices.len() ==> {
                    &&& (#[trigger] after.accs[i]).index == indices[i]
                    &&& after.accs[i].args == arguments_with(inputs, indices[i])
                    &&& after.accs[i].id == id_with(inputs, indices[i])
                    &&& after.accs[i].name == name_with(inputs, indices[i])
                }
            &&& forall|i: int, j: int|
                0 <= i < j < after.accs.len() ==> (#[trigger] after.accs[i]).index != (
                #[trigger] after.accs[j]).index
            &&& forall|k: int|
                0 <= k < inputs.len() ==> match fragment_in(#[trigger] inputs[k]) {
                    Some(f) => indices.contains(f.index),
                    None => true,
                }
            &&& after.content == r.content + text_in(inputs)
            &&& after.reasoning == r.reasoning + thoughts_in(inputs)
        }),
    decreases inputs.len(),
{
    if inputs.len() == 0 {
        assert(r.content + text_in(inputs) =~= r.content);
        assert(r.reasoning + thoughts_in(inputs) =~= r.reasoning);
    } else {
        let front = inputs.drop_last();
        let input = inputs.last();
        law_replies_are_put_together(r, front);
        let before = r.reading(front);
        let after = r.reading(inputs);
        let was = indices_in(front);
        let indices = indices_in(inputs);
        assert(after.content =~= r.content + text_in(inputs));
        assert(after.reasoning =~= r.reasoning + thoughts_in(inputs));
        match fragment_in(input) {
            Some(f) => {
                law_fragments_go_to_their_call(before, input);
                if was.contains(f.index) {
                    let i = choose|i: int| 0 <= i < was.len() && was[i] == f.index;
                    assert(before.accs[i].index == f.index);
                } else {
                    lemma_none_came(front, f.index);
                    assert forall|i: int| 0 <= i < before.accs.len() implies (
                    #[trigger] before.accs[i]).index != f.index by {
                        assert(was[i] == before.accs[i].index);
                    }
                    assert(indices.last() == f.index);
                    assert(Seq::<char>::empty() + or_empty(f.args) =~= or_empty(f.args));
                    assert(after.accs.last().args =~= arguments_with(inputs, f.index));
                }
                assert forall|i: int| 0 <= i < was.len() implies indices[i] == was[i] by {}
                assert(indices.contains(f.index)) by {
                    if !was.contains(f.index) {
                        assert(indices[indices.len() - 1] == f.index);
                    }
                }
                assert forall|i: int| 0 <= i < indices.len() implies {
                    &&& (#[trigger] after.accs[i]).index == indices[i]
                    &&& after.accs[i].args == arguments_with(inputs, indices[i])
                    &&& after.accs[i].id == id_with(inputs, indices[i])
                    &&& after.accs[i].name == name_with(inputs, indices[i])
                } by {
                    if i < was.len() {
                        assert(before.accs[i].index == was[i]);
                    }
                }
                assert forall|i: int, j: int| 0 <= i < j < after.accs.len() implies (
                #[trigger] after.accs[i]).index != (#[trigger] after.accs[j]).index by {
                    if j < was.len() {
                        assert(before.accs[i].index != before.accs[j].index);
                    } else {
                        assert(was[i] == indices[i]);
                        assert(was.contains(was[i]));
                    }
                }
                assert forall|k: int| 0 <= k < inputs.len() implies match fragment_in(
                    #[trigger] inputs[k],
                ) {
                    Some(g) => indices.contains(g.index),
                    None => true,
                } by {
                    if k < front.len() {
                        assert(front[k] == inputs[k]);
                        match fragment_in(inputs[k]) {
                            Some(g) => {
                                let i = choose|i: int| 0 <= i < was.len() && was[i] == g.index;
                                assert(indices[i] == g.index);
                            },
                            None => {},
                        }
                    }
                }
            },
            None => {
                assert(after.accs == before.accs);
                assert forall|k: int| 0 <= k < inputs.len() implies match fragment_in(
                    #[trigger] inputs[k],
                ) {
                    Some(g) => indices.contains(g.index),
                    None => true,
                } by {
                    if k < front.len() {
                        assert(front[k] == inputs[k]);
                    }
                }
            },
        }
    }
}

proof fn lemma_none_came(inputs: Seq<StreamInputModel>, index: u32)
    requires
        !indices_in(inputs).contains(index),
    ensures
        arguments_with(inputs, index) == Seq::<char>::empty(),
        id_with(inputs, index) == Seq::<char>::empty(),
        name_with(inputs, index) == Seq::<char>::empty(),
    decreases inputs.len(),
{
    if inputs.len() > 0 {
        let was = indices_in(inputs.drop_last());
        let now = indices_in(inputs);
        if was.contains(index) {
            let i = choose|i: int| 0 <= i < was.len() && was[i] == index;
            assert(now[i] == index);
        }
        match fragment_in(inputs.last()) {
            Some(f) => {
                if f.index == index && !was.contains(index) {
                    assert(now[now.len() - 1] == index);
                }
            },
            None => {},
        }
        lemma_none_came(inputs.drop_last(), index);
    }
}

// ---- What follows when reading has ended ----

/// What is done next.
pub enum Next {
    /// The reply stands.
    Finish,
    /// The request is sent again, after a pause; a notice may be shown meanwhile.
    Resend { wait_ms: u64, notice: Option<String> },
    /// The turn fails.
    Fail(String),
}

pub enum NextModel {
    Finish,
    Resend { wait_ms: u64, notice: Option<Seq<char>> },
    Fail(Seq<char>),
}

impl View for Next {
    type V = NextModel;

    open spec fn view(&self) -> NextModel {
        match *self {
            Next::Finish => NextModel::Finish,
            Next::Resend { wait_ms, notice } => NextModel::Resend {
                wait_ms,
                notice: llm::opt_text(notice),
            },
            Next::Fail(e) => NextModel::Fail(e@),
        }
    }
}

/// What is shown while a tool call is made again for the n-th time.
pub open spec fn retry_notice(n: u32) -> Seq<char> {
    "\n\n（工具调用参数被输出长度限制截断，已要求模型重发精简版，第 "@ + text::dec(n as nat)
        + "/3 次）\n\n"@
}

impl ReplyModel {
    /// The reply with the tokens of the request that has ended added up.
    pub open spec fn counted(self) -> ReplyModel {
        ReplyModel {
            usage_sum: self.usage_sum.sum(self.call_usage),
            call_usage: Usage::zero(),
            ..self
        }
    }

    /// Whether the request is sent again.
    pub open spec fn resends(self, stop: Stop) -> bool {
        match stop {
            Stop::Completed => false,
            Stop::Retry => self.stream_attempts < RETRIES,
            Stop::Continue => self.continuations < RETRIES,
            Stop::ToolRetry => true,
            Stop::GiveUp => false,
        }
    }

    /// The messages that a request for the broken tool call has more.
    pub open spec fn call_again(self) -> Seq<MessageModel> {
        let kept = if self.content.len() == 0 {
            self.extra
        } else {
            self.extra.push(llm::plain_message("assistant"@, self.content))
        };
        kept.push(llm::plain_message("user"@, CALL_AGAIN@))
    }

    /// The reply once it has been settled how to go on.
    pub open spec fn settled(self, stop: Stop) -> ReplyModel {
        let r = self.counted();
        if !self.resends(stop) {
            if stop == Stop::Completed {
                r
            } else {
                ReplyModel { last_err: None, ..r }
            }
        } else {
            match stop {
                Stop::Retry => ReplyModel { stream_attempts: (r.stream_attempts + 1) as u32, ..r },
                Stop::Continue => ReplyModel {
                    continuations: (r.continuations + 1) as u32,
                    extra: r.extra.push(llm::plain_message("assistant"@, r.content)).push(
                        llm::plain_message("user"@, GO_ON@),
                    ),
                    ..r
                },
                _ => ReplyModel {
                    tool_tries: (r.tool_tries + 1) as u32,
                    accs: Seq::empty(),
                    extra: r.call_again(),
                    content: Seq::empty(),
                    reasoning: Seq::empty(),
                    ..r
                },
            }
        }
    }

    /// How to go on.
    pub open spec fn next(self, stop: Stop) -> NextModel {
        if self.resends(stop) {
            match stop {
                Stop::Retry => NextModel::Resend {
                    wait_ms: (1000 * (self.stream_attempts + 1)) as u64,
                    notice: None,
                },
                Stop::ToolRetry => NextModel::Resend {
                    wait_ms: 0,
                    notice: Some(retry_notice((self.tool_tries + 1) as u32)),
                },
                _ => NextModel::Resend { wait_ms: 0, notice: None },
            }
        } else if stop == Stop::Completed {
            NextModel::Finish
        } else {
            match self.last_err {
                Some(e) => NextModel::Fail(e),
                None => NextModel::Finish,
            }
        }
    }

    /// How many more times the reply may be asked for.
    pub open spec fn tries_left(self) -> int {
        (RETRIES - self.stream_attempts) + (RETRIES - self.continuations) + (RETRIES
            - self.tool_tries)
    }

    /// Whether no count has passed its limit.
    pub open spec fn within_limits(self) -> bool {
        self.stream_attempts <= RETRIES && self.continuations <= RETRIES && self.tool_tries
            <= RETRIES
    }
}

impl Reply {
    /// Settles how to go on after reading has ended.
    pub fn settle(&mut self, stop: Stop) -> (next: Next)
        requires
            old(self)@.usage_sum.can_add(old(self)@.call_usage),
            stop == Stop::ToolRetry ==> old(self)@.tool_tries < RETRIES,
        ensures
            final(self)@ == old(self)@.settled(stop),
            next@ == old(self)@.next(stop),
    {
        self.usage_sum = self.usage_sum.plus(&self.call_usage);
        self.call_usage = Usage::default();
        if stop == Stop::Completed {
            return Next::Finish;
        }
        if stop == Stop::Retry && self.stream_attempts < RETRIES {
            self.stream_attempts = self.stream_attempts + 1;
            return Next::Resend { wait_ms: 1000 * self.stream_attempts as u64, notice: None };
        }
        if stop == Stop::Continue && self.continuations < RETRIES {
            self.continuations = self.continuations + 1;
            let said = Message::plain("assistant", text::copy_text(self.content.as_str()));
            let ask = Message::plain("user", text::copy_text(GO_ON));
            proof {
                llm::lemma_message_models_push(self.extra@, said);
                llm::lemma_message_models_push(self.extra@.push(said), ask);
            }
            self.extra.push(said);
            self.extra.push(ask);
            return Next::Resend { wait_ms: 0, notice: None };
        }
        if stop == Stop::ToolRetry {
            self.tool_tries = self.tool_tries + 1;
            self.accs = Vec::new();
            if text::char_count(self.content.as_str()) > 0 {
                let said = Message::plain("assistant", text::copy_text(self.content.as_str()));
                proof {
                    llm::lemma_message_models_push(self.extra@, said);
                }
                self.extra.push(said);
                self.content = String::new();
            }
            self.reasoning = String::new();
            let ask = Message::plain("user", text::copy_text(CALL_AGAIN));
            proof {
                llm::lemma_message_models_push(self.extra@, ask);
            }
            self.extra.push(ask);
            let mut notice = text::copy_text(
                "\n\n（工具调用参数被输出长度限制截断，已要求模型重发精简版，第 ",
            );
            notice.append(text::number(self.tool_tries as u64).as_str());
            notice.append("/3 次）\n\n");
            assert(self@.accs =~= old(self)@.settled(stop).accs);
            assert(self@.content =~= old(self)@.settled(stop).content);
            return Next::Resend { wait_ms: 0, notice: Some(notice) };
        }
        match self.last_err.take() {
            Some(e) => Next::Fail(e),
            None => Next::Finish,
        }
    }
}

/// Whether an input is a break: the stream fails, ends without its end mark, or is cut off for its
/// length.
pub open spec fn is_break(input: StreamInputModel) -> bool {
    match input {
        StreamInputModel::OpenFailed(_) => false,
        StreamInputModel::Failed(_) => true,
        StreamInputModel::Ended => true,
        StreamInputModel::Event(e) => match e {
            StreamEventModel::Finish { reason } => reason == Some("length"@),
            _ => false,
        },
    }
}

/// A break after text alone calls for its continuation; one after the beginning of a tool call calls
/// for the call again, and ends in a failure after three such attempts; one before anything has come
/// calls for the same request, except that a reply that was cut off goes on to its end mark. Nothing
/// else ends the reading but the end mark and a stream that could not be opened.
pub proof fn law_breaks_are_told_apart(r: ReplyModel, input: StreamInputModel)
    ensures
        is_break(input) && r.accs.len() == 0 && r.content.len() > 0 ==> r.stop(input) == Some(
            Stop::Continue,
        ),
        is_break(input) && r.accs.len() > 0 && r.tool_tries < 3 ==> r.stop(input) == Some(
            Stop::ToolRetry,
        ),
        is_break(input) && r.accs.len() > 0 && r.tool_tries >= 3 ==> r.stop(input) == Some(
            Stop::GiveUp,
        ),
        is_break(input) && r.accs.len() == 0 && r.content.len() == 0 ==> r.stop(input) == (
        if input is Event {
            None
        } else {
            Some(Stop::Retry)
        }),
        input is OpenFailed ==> r.stop(input) == Some(Stop::Retry),
        input == StreamInputModel::Event(StreamEventModel::Done) <==> r.stop(input) == Some(
            Stop::Completed,
        ),
        !is_break(input) && !(input is OpenFailed) && input != StreamInputModel::Event(
            StreamEventModel::Done,
        ) ==> r.stop(input) is None,
{
}

/// A failure is kept with its own words; a break that leaves nothing to go on with has words for it;
/// nothing else touches the error, and no input touches what it does not bring.
pub proof fn law_failures_are_kept(r: ReplyModel, input: StreamInputModel)
    ensures
        ({
            let after = r.taking(input);
            let nothing = r.accs.len() == 0 && r.content.len() == 0;
            let lost = r.accs.len() > 0 && r.tool_tries >= 3;
            &&& input matches StreamInputModel::OpenFailed(e) ==> after.last_err == Some(e)
            &&& input matches StreamInputModel::Failed(e) ==> after.last_err == Some(e)
            &&& input is Ended && nothing ==> after.last_err == Some(
                "LLM 流式连接中断（未收到数据）"@,
            )
            &&& input is Ended && lost ==> after.last_err == Some(
                "LLM 流在工具调用中途中断且重试用尽；请检查网络或调大 config.toml [llm] max_tokens"@,
            )
            &&& input is Event && is_break(input) && lost ==> after.last_err == Some(
                "输出在工具调用中途被 max_tokens 截断（已重试 3 次）；请调大 config.toml [llm] max_tokens 或让模型精简工具参数"@,
            )
            &&& !is_break(input) && !(input is OpenFailed) ==> after.last_err == r.last_err
            &&& is_break(input) && !(input is Failed) && !lost && !(input is Ended && nothing)
                ==> after.last_err == r.last_err
            &&& !(input is Event) ==> after == (ReplyModel { last_err: after.last_err, ..r })
            &&& input matches StreamInputModel::Event(StreamEventModel::Usage(u)) ==> after == (
            ReplyModel { call_usage: u, ..r })
            &&& input matches StreamInputModel::Event(StreamEventModel::Content(s)) ==> after == (
            ReplyModel { content: r.content + s, ..r })
            &&& input matches StreamInputModel::Event(StreamEventModel::Reasoning(s)) ==> after == (
            ReplyModel { reasoning: r.reasoning + s, ..r })
            &&& input == StreamInputModel::Event(StreamEventModel::Done) ==> after == r
        }),
{
}

/// How a reply goes on. A request that brought nothing is sent again as it is, up to three times,
/// after one, two and three seconds. Text that broke off is sent along as the assistant's, with the
/// user's demand to go on, up to three times, and stays in the reply. A tool call that broke off is
/// dropped with the thoughts, and asked for again; text before it is sent along as the assistant's.
/// An end mark ends the reply, and whatever cannot go on fails with the error, where there is one.
pub proof fn law_requests_go_on(r: ReplyModel, stop: Stop)
    requires
        stop == Stop::ToolRetry ==> r.tool_tries < 3,
    ensures
        ({
            let after = r.settled(stop);
            let sent = after.extra.skip(r.extra.len() as int);
            let from = |role: Seq<char>, content: Seq<char>| MessageModel {
                role,
                content: Some(content),
                tool_calls: None,
                tool_call_id: None,
                reasoning_content: None,
            };
            &&& stop == Stop::Completed ==> r.next(stop) is Finish && sent.len() == 0
                && after.content == r.content && after.accs == r.accs && after.reasoning
                == r.reasoning
            &&& stop == Stop::Retry && r.stream_attempts < 3 ==> {
                &&& r.next(stop) == (NextModel::Resend {
                    wait_ms: (1000 * (r.stream_attempts + 1)) as u64,
                    notice: None,
                })
                &&& after.stream_attempts == r.stream_attempts + 1
                &&& sent.len() == 0 && after.content == r.content && after.accs == r.accs
            }
            &&& stop == Stop::Continue && r.continuations < 3 ==> {
                &&& r.next(stop) == (NextModel::Resend { wait_ms: 0, notice: None })
                &&& after.continuations == r.continuations + 1
                &&& sent == seq![
                    from("assistant"@, r.content),
                    from("user"@, "继续，从中断处接着输出，不要重复已输出的内容。"@),
                ]
                &&& after.content == r.content && after.reasoning == r.reasoning
            }
            &&& stop == Stop::ToolRetry ==> {
                &&& r.next(stop) == (NextModel::Resend {
                    wait_ms: 0,
                    notice: Some(
                        "\n\n（工具调用参数被输出长度限制截断，已要求模型重发精简版，第 "@ + text::dec(
                            (r.tool_tries + 1) as nat,
                        ) + "/3 次）\n\n"@,
                    ),
                })
                &&& after.tool_tries == r.tool_tries + 1
                &&& after.accs.len() == 0 && after.content.len() == 0 && after.reasoning.len() == 0
                &&& sent.last() == from(
                    "user"@,
                    "你上一条回复中的工具调用参数因输出长度限制被截断，已丢弃。请重新完整调用该工具：参数必须完整合法，内容尽量精简（如会话记忆压缩到关键信息即可），不要重复输出之前已确认的正文。"@,
                )
                &&& if r.content.len() == 0 {
                    sent.len() == 1
                } else {
                    sent.len() == 2 && sent[0] == from("assistant"@, r.content)
                }
            }
            &&& (stop == Stop::GiveUp || (stop == Stop::Retry && r.stream_attempts >= 3) || (stop
                == Stop::Continue && r.continuations >= 3)) ==> {
                &&& r.next(stop) == (match r.last_err {
                    Some(e) => NextModel::Fail(e),
                    None => NextModel::Finish,
                })
                &&& sent.len() == 0 && after.content == r.content && after.accs == r.accs
                &&& after.last_err is None
            }
            &&& r.extra.is_prefix_of(after.extra)
        }),
{
    let after = r.settled(stop);
    let sent = after.extra.skip(r.extra.len() as int);
    if stop == Stop::Continue && r.continuations < 3 {
        let n = r.extra.len() as int;
        assert(sent =~= seq![after.extra[n], after.extra[n + 1]]);
    }
    assert(r.extra =~= after.extra.take(r.extra.len() as int));
}

/// A reply is asked for again at most nine times: each time uses up one of the tries, and without
/// a try left nothing is sent again.
pub proof fn law_retries_are_bounded(r: ReplyModel, stop: Stop)
    requires
        r.within_limits(),
        stop == Stop::ToolRetry ==> r.tool_tries < RETRIES,
    ensures
        r.settled(stop).within_limits(),
        r.next(stop) is Resend ==> 0 <= r.settled(stop).tries_left() < r.tries_left() <= 9,
        r.tries_left() == 0 ==> !(r.next(stop) is Resend),
{
}

/// Reading never ends with a call for another tool call when the tries for that are used up, and
/// the limits hold while a reply comes in.
pub proof fn law_reading_keeps_limits(r: ReplyModel, input: StreamInputModel)
    requires
        r.within_limits(),
    ensures
        r.taking(input).within_limits(),
        r.taking(input).tries_left() == r.tries_left(),
        r.stop(input) == Some(Stop::ToolRetry) ==> r.taking(input).tool_tries < RETRIES,
{
}

/// A reply that gives up says why: it fails with an error, never with a half-finished tool call.
pub proof fn law_broken_calls_do_not_stand(r: ReplyModel, input: StreamInputModel)
    requires
        r.stop(input) == Some(Stop::GiveUp),
    ensures
        r.taking(input).next(Stop::GiveUp) is Fail,
{
}

/// Text that has come in is not lost when a reply is asked for again: it stays in the reply, or
/// goes into the request as the assistant's.
pub proof fn law_text_is_kept(r: ReplyModel, stop: Stop)
    ensures
        r.settled(stop).content == r.content || r.content.len() == 0 || r.settled(stop).extra
            == r.extra.push(llm::plain_message("assistant"@, r.content)).push(
            llm::plain_message("user"@, CALL_AGAIN@),
        ),
        r.extra.len() <= r.settled(stop).extra.len(),
        r.settled(stop).extra.take(r.extra.len() as int) =~= r.extra,
{
}

/// The tokens of every request are counted, whether it ended well or not.
pub proof fn law_every_request_is_counted(r: ReplyModel, stop: Stop)
    ensures
        r.settled(stop).usage_sum == r.usage_sum.sum(r.call_usage),
        r.settled(stop).call_usage == Usage::zero(),
{
}

// ---- A finished reply ----

/// The calls of a finished reply.
pub open spec fn finished_calls(accs: Seq<ToolCallAccModel>) -> Seq<ToolCallModel> {
    accs.map_values(|a: ToolCallAccModel| a.call())
}

pub open spec fn if_any<T>(s: Seq<T>) -> Option<Seq<T>> {
    if s.len() == 0 {
        None
    } else {
        Some(s)
    }
}

impl ReplyModel {
    /// The message that the reply leaves in the session.
    pub open spec fn message(self) -> MessageModel {
        MessageModel {
            role: "assistant"@,
            content: if_any(self.content),
            tool_calls: if_any(finished_calls(self.accs)),
            tool_call_id: None,
            reasoning_content: if_any(self.reasoning),
        }
    }
}

/// What a finished reply leaves: the assistant's message with its text and thoughts, where there are
/// any, and each call once, in order, as a function with its id and name, and with its arguments where
/// there are any.
pub proof fn law_finished_replies_stand(r: ReplyModel)
    ensures
        ({
            let calls = finished_calls(r.accs);
            let m = r.message();
            &&& calls.len() == r.accs.len()
            &&& forall|i: int|
                0 <= i < calls.len() ==> {
                    &&& (#[trigger] calls[i]).id == r.accs[i].id
                    &&& calls[i].name == r.accs[i].name
                    &&& calls[i].kind == "function"@
                    &&& calls[i].arguments is None <==> r.accs[i].args.len() == 0
                    &&& calls[i].arguments is Some ==> calls[i].arguments->Some_0 == r.accs[i].args
                }
            &&& m.role == "assistant"@
            &&& m.tool_call_id is None
            &&& m.content is None <==> r.content.len() == 0
            &&& m.content is Some ==> m.content->Some_0 == r.content
            &&& m.reasoning_content is None <==> r.reasoning.len() == 0
            &&& m.reasoning_content is Some ==> m.reasoning_content->Some_0 == r.reasoning
            &&& m.tool_calls is None <==> r.accs.len() == 0
            &&& m.tool_calls is Some ==> m.tool_calls->Some_0 == calls
        }),
{
}

fn finish_calls(accs: &Vec<ToolCallAcc>) -> (calls: Vec<ToolCall>)
    ensures
        llm::call_models(calls@) == finished_calls(acc_models(accs@)),
{
    let mut calls: Vec<ToolCall> = Vec::new();
    let ghost all = finished_calls(acc_models(accs@));
    let mut i: usize = 0;
    while i < accs.len()
        invariant
            i <= accs@.len(),
            all == finished_calls(acc_models(accs@)),
            llm::call_models(calls@) =~= all.take(i as int),
        decreases accs@.len() - i,
    {
        let a = &accs[i];
        let call = ToolCall {
            id: text::copy_text(a.id.as_str()),
            kind: text::copy_text("function"),
            function: FunctionCall {
                name: text::copy_text(a.name.as_str()),
                arguments: if text::char_count(a.args.as_str()) == 0 {
                    None
                } else {
                    Some(text::copy_text(a.args.as_str()))
                },
            },
        };
        let ghost before = calls@;
        calls.push(call);
        proof {
            assert(call@ == a@.call());
            assert(llm::call_models(calls@) =~= llm::call_models(before).push(call@));
            assert(all.take(i + 1) =~= all.take(i as int).push(all[i as int]));
        }
        i = i + 1;
    }
    assert(all.take(all.len() as int) =~= all);
    calls
}

fn some_if_any(s: &str) -> (r: Option<String>)
    ensures
        llm::opt_text(r) == if_any(s@),
{
    if text::char_count(s) == 0 {
        None
    } else {
        Some(text::copy_text(s))
    }
}

impl Reply {
    /// Leaves the finished reply in the session and adds its tokens up; gives the tool calls that
    /// are to be answered. Without any, the turn is over.
    pub fn finish(&self, session: &mut Session) -> (calls: Vec<ToolCall>)
        requires
            old(session)@.usage.can_add(self@.usage_sum),
        ensures
            llm::call_models(calls@) == finished_calls(self@.accs),
            final(session)@ == (SessionModel {
                usage: old(session)@.usage.sum(self@.usage_sum),
                messages: old(session)@.messages.push(self@.message()),
                ..old(session)@
            }),
    {
        session.usage = session.usage.plus(&self.usage_sum);
        let calls = finish_calls(&self.accs);
        let msg = Message {
            role: text::copy_text("assistant"),
            content: some_if_any(self.content.as_str()),
            tool_calls: if calls.len() == 0 {
                None
            } else {
                Some(llm::copy_calls(&calls))
            },
            tool_call_id: None,
            reasoning_content: some_if_any(self.reasoning.as_str()),
        };
        proof {
            assert(llm::call_models(calls@).len() == calls@.len());
            assert(msg@ == self@.message());
            llm::lemma_message_models_push(session.messages@, msg);
        }
        session.messages.push(msg);
        calls
    }
}

} // verus!
