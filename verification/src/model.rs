//! Conversation data shared by the agent, the context manager and the
//! providers: roles, messages, tool calls and tool schemas.
use vstd::prelude::*;

use crate::text::own;

verus! {

#[derive(Debug, Clone, Copy, PartialEq, Eq, Structural)]
pub enum Role {
    System,
    User,
    Assistant,
    Tool,
}

/// A tool call the assistant made. `arguments` is the call's arguments
/// object as JSON text.
#[derive(Debug)]
pub struct ToolCall {
    pub id: String,
    pub name: String,
    pub arguments: String,
}

pub struct ToolCallView {
    pub id: Seq<char>,
    pub name: Seq<char>,
    pub arguments: Seq<char>,
}

impl View for ToolCall {
    type V = ToolCallView;

    open spec fn view(&self) -> ToolCallView {
        ToolCallView { id: self.id@, name: self.name@, arguments: self.arguments@ }
    }
}

#[derive(Debug)]
pub struct Message {
    pub role: Role,
    pub content: String,
    /// Tool calls the assistant made (assistant messages only).
    pub tool_calls: Vec<ToolCall>,
    /// Which call a tool-result message answers (tool messages only).
    pub tool_call_id: Option<String>,
}

pub struct MessageView {
    pub role: Role,
    pub content: Seq<char>,
    pub tool_calls: Seq<ToolCallView>,
    pub tool_call_id: Option<Seq<char>>,
}

pub open spec fn opt_view(o: Option<String>) -> Option<Seq<char>> {
    match o {
        Some(s) => Some(s@),
        None => None,
    }
}

pub open spec fn call_views(c: Seq<ToolCall>) -> Seq<ToolCallView> {
    c.map_values(|x: ToolCall| x@)
}

impl View for Message {
    type V = MessageView;

    open spec fn view(&self) -> MessageView {
        MessageView {
            role: self.role,
            content: self.content@,
            tool_calls: call_views(self.tool_calls@),
            tool_call_id: opt_view(self.tool_call_id),
        }
    }
}

/// The views of a list of messages.
pub open spec fn msg_views(m: Seq<Message>) -> Seq<MessageView> {
    m.map_values(|x: Message| x@)
}

/// A message with no tool calls and no call id.
pub open spec fn plain(role: Role, content: Seq<char>) -> MessageView {
    MessageView { role, content, tool_calls: Seq::empty(), tool_call_id: None }
}

/// JSON-Schema description of a tool, as sent to the model. `parameters`
/// is the schema as JSON text.
#[derive(Debug)]
pub struct ToolSchema {
    pub name: String,
    pub description: String,
    pub parameters: String,
}

pub fn copy_string(s: &String) -> (r: String)
    ensures
        r@ == s@,
{
    s.clone()
}

pub fn copy_opt_string(s: &Option<String>) -> (r: Option<String>)
    ensures
        opt_view(r) == opt_view(*s),
{
    match s {
        Some(x) => Some(x.clone()),
        None => None,
    }
}

impl ToolCall {
    pub fn copy(&self) -> (r: ToolCall)
        ensures
            r@ == self@,
    {
        ToolCall {
            id: self.id.clone(),
            name: self.name.clone(),
            arguments: self.arguments.clone(),
        }
    }
}

pub fn copy_calls(c: &Vec<ToolCall>) -> (r: Vec<ToolCall>)
    ensures
        call_views(r@) == call_views(c@),
{
    let mut r: Vec<ToolCall> = Vec::new();
    let mut i: usize = 0;
    while i < c.len()
        invariant
            i <= c@.len(),
            call_views(r@) =~= call_views(c@).take(i as int),
        decreases c@.len() - i,
    {
        let ghost before = r@;
        r.push(c[i].copy());
        assert(call_views(r@) =~= call_views(before).push(c@[i as int]@));
        i = i + 1;
    }
    assert(call_views(c@).take(c@.len() as int) =~= call_views(c@));
    r
}

impl Message {
    pub fn copy(&self) -> (r: Message)
        ensures
            r@ == self@,
    {
        Message {
            role: self.role,
            content: self.content.clone(),
            tool_calls: copy_calls(&self.tool_calls),
            tool_call_id: copy_opt_string(&self.tool_call_id),
        }
    }

    pub fn system(content: &str) -> (m: Message)
        ensures
            m@ == plain(Role::System, content@),
    {
        Message::plain_message(Role::System, content)
    }

    pub fn user(content: &str) -> (m: Message)
        ensures
            m@ == plain(Role::User, content@),
    {
        Message::plain_message(Role::User, content)
    }

    pub fn assistant(content: &str) -> (m: Message)
        ensures
            m@ == plain(Role::Assistant, content@),
    {
        Message::plain_message(Role::Assistant, content)
    }

    pub fn tool_result(call_id: &str, content: &str) -> (m: Message)
        ensures
            m@ == (MessageView {
                role: Role::Tool,
                content: content@,
                tool_calls: Seq::empty(),
                tool_call_id: Some(call_id@),
            }),
    {
        let m = Message {
            role: Role::Tool,
            content: own(content),
            tool_calls: Vec::new(),
            tool_call_id: Some(own(call_id)),
        };
        assert(call_views(m.tool_calls@) =~= Seq::empty());
        m
    }

    fn plain_message(role: Role, content: &str) -> (m: Message)
        ensures
            m@ == plain(role, content@),
    {
        let m = Message {
            role,
            content: own(content),
            tool_calls: Vec::new(),
            tool_call_id: None,
        };
        assert(call_views(m.tool_calls@) =~= Seq::empty());
        m
    }
}

/// Copies of `m[from..to]`.
pub fn copy_messages(m: &[Message], from: usize, to: usize) -> (r: Vec<Message>)
    requires
        from <= to <= m@.len(),
    ensures
        msg_views(r@) == msg_views(m@).subrange(from as int, to as int),
{
    let mut r: Vec<Message> = Vec::new();
    let mut i = from;
    while i < to
        invariant
            from <= i <= to <= m@.len(),
            msg_views(r@) =~= msg_views(m@).subrange(from as int, i as int),
        decreases to - i,
    {
        let ghost before = r@;
        r.push(m[i].copy());
        assert(msg_views(r@) =~= msg_views(before).push(m@[i as int]@));
        i = i + 1;
    }
    r
}

/// Append copies of `m` to `out`.
pub fn extend_messages(out: &mut Vec<Message>, m: &[Message])
    ensures
        msg_views(final(out)@) == msg_views(old(out)@) + msg_views(m@),
{
    let mut i: usize = 0;
    while i < m.len()
        invariant
            i <= m@.len(),
            msg_views(out@) =~= msg_views(old(out)@) + msg_views(m@).take(i as int),
        decreases m@.len() - i,
    {
        let ghost before = out@;
        out.push(m[i].copy());
        assert(msg_views(out@) =~= msg_views(before).push(m@[i as int]@));
        i = i + 1;
    }
    assert(msg_views(m@).take(m@.len() as int) =~= msg_views(m@));
}

/// Tokens a provider reported for one request.
#[derive(Debug, Clone, Copy, PartialEq, Eq, Structural, Default)]
pub struct Usage {
    pub prompt_tokens: u64,
    pub completion_tokens: u64,
}

/// Why a model stopped producing output.
#[derive(Debug, Clone, Copy, PartialEq, Eq, Structural)]
pub enum StopReason {
    EndTurn,
    ToolUse,
    MaxTokens,
    Cancelled,
    Other,
}

/// What a provider supports.
#[derive(Debug, Clone, Copy, PartialEq, Eq, Structural)]
pub struct Capabilities {
    pub native_tools: bool,
    pub structured_output: bool,
    pub is_local: bool,
}

/// Reasoning effort requested from a thinking model.
#[derive(Debug, Clone, Copy, PartialEq, Eq, Structural)]
pub enum Effort {
    Low,
    Medium,
    High,
}

pub open spec fn effort_text(e: Effort) -> Seq<char> {
    match e {
        Effort::Low => "low"@,
        Effort::Medium => "medium"@,
        Effort::High => "high"@,
    }
}

impl Effort {
    /// The level's name in lower case, as wire formats spell it.
    pub fn name(&self) -> (r: &'static str)
        ensures
            r@ == effort_text(*self),
    {
        match self {
            Effort::Low => "low",
            Effort::Medium => "medium",
            Effort::High => "high",
        }
    }
}

/// One piece of a streamed model response.
#[derive(Debug)]
pub enum ChatDelta {
    Text(String),
    /// Reasoning from a thinking model; shown, never kept in the history.
    Thinking(String),
    /// A tool-call fragment (providers that stream arguments in pieces).
    ToolCallPartial { index: usize, name: Option<String>, args_fragment: String },
    /// A whole tool call.
    ToolCall(ToolCall),
    Usage(Usage),
    Done(StopReason),
}

pub enum DeltaView {
    Text(Seq<char>),
    Thinking(Seq<char>),
    ToolCallPartial { index: usize, name: Option<Seq<char>>, args_fragment: Seq<char> },
    ToolCall(ToolCallView),
    Usage(Usage),
    Done(StopReason),
}

impl View for ChatDelta {
    type V = DeltaView;

    open spec fn view(&self) -> DeltaView {
        match self {
            ChatDelta::Text(t) => DeltaView::Text(t@),
            ChatDelta::Thinking(t) => DeltaView::Thinking(t@),
            ChatDelta::ToolCallPartial { index, name, args_fragment } => DeltaView::ToolCallPartial {
                index: *index,
                name: opt_view(*name),
                args_fragment: args_fragment@,
            },
            ChatDelta::ToolCall(c) => DeltaView::ToolCall(c@),
            ChatDelta::Usage(u) => DeltaView::Usage(*u),
            ChatDelta::Done(r) => DeltaView::Done(*r),
        }
    }
}

pub open spec fn delta_views(d: Seq<ChatDelta>) -> Seq<DeltaView> {
    d.map_values(|x: ChatDelta| x@)
}

} // verus!
