//! Approximate token counting: a byte-ratio heuristic (~3.5 bytes per
//! token, rounded up) that deliberately overshoots, plus a fixed
//! per-message overhead.
use vstd::prelude::*;

use crate::model::{MessageView, Message, ToolCall, ToolCallView, ToolSchema, msg_views, call_views};
use crate::text::{byte_len, str_len};

verus! {

/// Per-message wire overhead (role tags, separators).
pub const PER_MESSAGE_OVERHEAD: usize = 4;

/// Tokens for `bytes` bytes: `bytes / 3.5`, rounded up.
pub open spec fn est(bytes: nat) -> nat {
    (2 * bytes + 6) / 7
}

/// Bytes of the names and argument texts of some tool calls.
pub open spec fn calls_bytes(c: Seq<ToolCallView>) -> nat
    decreases c.len(),
{
    if c.len() == 0 {
        0
    } else {
        calls_bytes(c.drop_last()) + byte_len(c.last().name) + byte_len(c.last().arguments)
    }
}

pub open spec fn msg_estimate(m: MessageView) -> nat {
    est(byte_len(m.content)) + est(calls_bytes(m.tool_calls)) + PER_MESSAGE_OVERHEAD as nat
}

pub open spec fn msgs_estimate(m: Seq<MessageView>) -> nat
    decreases m.len(),
{
    if m.len() == 0 {
        0
    } else {
        msgs_estimate(m.drop_last()) + msg_estimate(m.last())
    }
}

pub struct ToolSchemaView {
    pub name: Seq<char>,
    pub description: Seq<char>,
    pub parameters: Seq<char>,
}

impl View for ToolSchema {
    type V = ToolSchemaView;

    open spec fn view(&self) -> ToolSchemaView {
        ToolSchemaView {
            name: self.name@,
            description: self.description@,
            parameters: self.parameters@,
        }
    }
}

pub open spec fn schema_views(t: Seq<ToolSchema>) -> Seq<ToolSchemaView> {
    t.map_values(|x: ToolSchema| x@)
}

pub open spec fn tool_estimate(t: ToolSchemaView) -> nat {
    est(byte_len(t.description)) + est(byte_len(t.parameters)) + est(byte_len(t.name))
}

pub open spec fn tools_estimate(t: Seq<ToolSchemaView>) -> nat
    decreases t.len(),
{
    if t.len() == 0 {
        0
    } else {
        tools_estimate(t.drop_last()) + tool_estimate(t.last())
    }
}

/// The whole estimate for a request.
pub open spec fn estimate(m: Seq<MessageView>, t: Seq<ToolSchemaView>) -> nat {
    msgs_estimate(m) + tools_estimate(t)
}

/// Tokens for `bytes` bytes.
pub fn estimate_bytes(bytes: usize) -> (n: usize)
    ensures
        n == est(bytes as nat),
        n <= bytes,
{
    let q = bytes / 7;
    let r = bytes % 7;
    let n = q * 2 + (r * 2 + 6) / 7;
    assert(n == est(bytes as nat)) by (nonlinear_arith)
        requires
            q == bytes / 7,
            r == bytes % 7,
            n == q * 2 + (r * 2 + 6) / 7,
    ;
    n
}

/// Approximate token count of `text`.
pub fn estimate_text(text: &str) -> (n: usize)
    ensures
        n == est(byte_len(text@)),
{
    estimate_bytes(str_len(text))
}

/// Bytes of the calls' names and argument texts.
fn calls_bytes_exec(c: &Vec<ToolCall>) -> (n: u128)
    ensures
        n == calls_bytes(call_views(c@)),
{
    let mut n: u128 = 0;
    let mut i: usize = 0;
    while i < c.len()
        invariant
            i <= c@.len(),
            n == calls_bytes(call_views(c@).take(i as int)),
            n <= i * 0x1_0000_0000_0000_0000,
        decreases c@.len() - i,
    {
        let ghost cv = call_views(c@);
        proof {
            assert(cv.take(i + 1).drop_last() =~= cv.take(i as int));
        }
        let a = str_len(c[i].name.as_str());
        let b = str_len(c[i].arguments.as_str());
        n = n + a as u128 + b as u128;
        i = i + 1;
    }
    assert(call_views(c@).take(c@.len() as int) =~= call_views(c@));
    n
}

/// Tokens for `bytes` bytes, for byte counts wider than a `usize`.
fn estimate_wide(bytes: u128) -> (n: u128)
    ensures
        n == est(bytes as nat),
{
    let q = bytes / 7;
    let r = bytes % 7;
    let n = q * 2 + (r * 2 + 6) / 7;
    assert(n == est(bytes as nat)) by (nonlinear_arith)
        requires
            q == bytes / 7,
            r == bytes % 7,
            n == q * 2 + (r * 2 + 6) / 7,
    ;
    n
}

proof fn lemma_calls_bytes_prefix(c: Seq<ToolCallView>, k: int)
    requires
        0 <= k <= c.len(),
    ensures
        calls_bytes(c.take(k)) <= calls_bytes(c),
    decreases c.len() - k,
{
    if k < c.len() {
        lemma_calls_bytes_prefix(c, k + 1);
        assert(c.take(k + 1).drop_last() =~= c.take(k));
    } else {
        assert(c.take(k) =~= c);
    }
}

proof fn lemma_msgs_estimate_prefix(m: Seq<MessageView>, k: int)
    requires
        0 <= k <= m.len(),
    ensures
        msgs_estimate(m.take(k)) <= msgs_estimate(m),
    decreases m.len() - k,
{
    if k < m.len() {
        lemma_msgs_estimate_prefix(m, k + 1);
        assert(m.take(k + 1).drop_last() =~= m.take(k));
    } else {
        assert(m.take(k) =~= m);
    }
}

proof fn lemma_tools_estimate_prefix(t: Seq<ToolSchemaView>, k: int)
    requires
        0 <= k <= t.len(),
    ensures
        tools_estimate(t.take(k)) <= tools_estimate(t),
    decreases t.len() - k,
{
    if k < t.len() {
        lemma_tools_estimate_prefix(t, k + 1);
        assert(t.take(k + 1).drop_last() =~= t.take(k));
    } else {
        assert(t.take(k) =~= t);
    }
}

/// Estimated prompt tokens for `messages` plus the tool schemas.
pub fn estimate_messages(messages: &[Message], tools: &[ToolSchema]) -> (n: usize)
    requires
        estimate(msg_views(messages@), schema_views(tools@)) <= usize::MAX,
    ensures
        n == estimate(msg_views(messages@), schema_views(tools@)),
{
    let ghost mv = msg_views(messages@);
    let ghost tv = schema_views(tools@);
    let mut total: usize = 0;
    let mut i: usize = 0;
    while i < messages.len()
        invariant
            i <= messages@.len(),
            mv == msg_views(messages@),
            tv == schema_views(tools@),
            estimate(mv, tv) <= usize::MAX,
            total == msgs_estimate(mv.take(i as int)),
        decreases messages@.len() - i,
    {
        proof {
            assert(mv.take(i + 1).drop_last() =~= mv.take(i as int));
            lemma_msgs_estimate_prefix(mv, i + 1);
        }
        let m = &messages[i];
        let a = estimate_text(m.content.as_str());
        let cb = calls_bytes_exec(&m.tool_calls);
        let b = estimate_wide(cb) as usize;
        total = total + a + b + PER_MESSAGE_OVERHEAD;
        i = i + 1;
    }
    assert(mv.take(messages@.len() as int) =~= mv);
    let mut j: usize = 0;
    let mut tools_total: usize = 0;
    while j < tools.len()
        invariant
            j <= tools@.len(),
            mv == msg_views(messages@),
            tv == schema_views(tools@),
            estimate(mv, tv) <= usize::MAX,
            total == msgs_estimate(mv),
            tools_total == tools_estimate(tv.take(j as int)),
        decreases tools@.len() - j,
    {
        proof {
            assert(tv.take(j + 1).drop_last() =~= tv.take(j as int));
            lemma_tools_estimate_prefix(tv, j + 1);
        }
        let t = &tools[j];
        let a = estimate_text(t.description.as_str());
        let b = estimate_text(t.parameters.as_str());
        let c = estimate_text(t.name.as_str());
        tools_total = tools_total + a + b + c;
        j = j + 1;
    }
    assert(tv.take(tools@.len() as int) =~= tv);
    total + tools_total
}

} // verus!
