//! The decisions of the agent's turn loop: when a turn stops, when the
//! model gets constrained decoding, which tool calls may run together and
//! in what order their results enter the conversation, how a background
//! summary is spliced in (or discarded when stale), and the tool-result
//! texts the model reads.
use vstd::prelude::*;

use crate::model::{msg_views, plain, Effort, Message, MessageView, Role};
use crate::permissions::ToolKind;
use crate::text::{decimal, extend_str, from_chars, push_decimal, to_chars};
use crate::tools::ToolOutput;
use crate::context::{prune_stub_text, ContextManager, PRUNE_MIN_BYTES, PRUNE_STUB_PREFIX};
use crate::text::byte_len;

verus! {

/// The user's answer to a permission request.
#[derive(Debug, Clone, Copy, PartialEq, Eq, Structural)]
pub enum PermissionDecision {
    Allow,
    /// Allow, and remember for the rest of the session.
    AlwaysAllow,
    Deny,
}

/// What a finished turn reports.
#[derive(Debug)]
pub struct TurnResult {
    pub final_text: String,
    pub iterations: u32,
}

/// Why a turn failed.
#[derive(Debug, Clone, PartialEq, Eq)]
pub enum AgentError {
    /// The provider failed; the text is its error message.
    Provider(String),
    Cancelled,
    IterationLimit(u32),
}

pub open spec fn agent_error_text(e: AgentError) -> Seq<char> {
    match e {
        AgentError::Provider(m) => m@,
        AgentError::Cancelled => "turn cancelled"@,
        AgentError::IterationLimit(n) => "iteration limit ("@ + decimal(n as nat) + ") reached"@,
    }
}

impl AgentError {
    /// The message shown for the error.
    pub fn message(&self) -> (r: String)
        ensures
            r@ == agent_error_text(*self),
    {
        match self {
            AgentError::Provider(m) => m.clone(),
            AgentError::Cancelled => "turn cancelled".to_string(),
            AgentError::IterationLimit(n) => {
                let mut v = to_chars("iteration limit (");
                push_decimal(&mut v, *n as u64);
                extend_str(&mut v, ") reached");
                from_chars(v.as_slice())
            },
        }
    }
}

/// How many schema-invalid tool-call rounds a turn tolerates before the
/// model is asked for constrained output.
pub const MAX_REPAIR_ROUNDS: u32 = 2;

/// The bookkeeping of one user turn.
pub struct Turn {
    pub max_iterations: u32,
    pub iterations: u32,
    pub repair_rounds: u32,
    pub final_text: String,
}

/// How the loop of a turn ended.
pub enum TurnEnd {
    /// The model stopped asking for tools.
    Done,
    Failed(AgentError),
}

impl Turn {
    /// Every retry follows a model call, and calls stop at the limit.
    pub open spec fn wf(&self) -> bool {
        self.repair_rounds <= self.iterations <= self.max_iterations
    }

    pub fn new(max_iterations: u32) -> (t: Turn)
        ensures
            t.wf(),
            t.max_iterations == max_iterations,
            t.iterations == 0,
            t.repair_rounds == 0,
            t.final_text@.len() == 0,
    {
        Turn { max_iterations, iterations: 0, repair_rounds: 0, final_text: String::new() }
    }

    /// Count one more model call; `false` when the iteration limit is
    /// reached and the turn must stop.
    pub fn start_iteration(&mut self) -> (go: bool)
        requires
            old(self).wf(),
        ensures
            final(self).wf(),
            (go, final(self).iterations as nat) == iteration_step(
                old(self).iterations as nat,
                old(self).max_iterations as nat,
            ),
            go == (old(self).iterations < old(self).max_iterations),
            final(self).iterations == (if go {
                old(self).iterations + 1
            } else {
                old(self).iterations as int
            }),
            final(self).repair_rounds == old(self).repair_rounds,
            final(self).max_iterations == old(self).max_iterations,
            final(self).final_text@ == old(self).final_text@,
    {
        if self.iterations >= self.max_iterations {
            false
        } else {
            self.iterations = self.iterations + 1;
            true
        }
    }

    /// Constrained decoding once ordinary repair has failed twice.
    pub fn use_format_fallback(&self) -> (r: bool)
        ensures
            r == (self.repair_rounds >= MAX_REPAIR_ROUNDS),
    {
        self.repair_rounds >= MAX_REPAIR_ROUNDS
    }

    /// Record the model's reply text: it becomes the turn's final text
    /// unless empty or produced under constrained decoding.
    pub fn note_reply(&mut self, text: &str, fallback: bool)
        ensures
            final(self).final_text@ == (if text@.len() > 0 && !fallback {
                text@
            } else {
                old(self).final_text@
            }),
            final(self).iterations == old(self).iterations,
            final(self).repair_rounds == old(self).repair_rounds,
            final(self).max_iterations == old(self).max_iterations,
    {
        if !text.is_empty() && !fallback {
            self.final_text = text.to_string();
        }
    }

    /// After validating the calls of a reply: when every call was invalid
    /// the model retries (another repair round, `true`); otherwise the
    /// valid calls run and the repair count starts over.
    pub fn after_validation(&mut self, any_invalid: bool, none_valid: bool) -> (retry: bool)
        requires
            old(self).wf(),
            old(self).iterations > old(self).repair_rounds,
        ensures
            final(self).wf(),
            retry == (any_invalid && none_valid),
            final(self).repair_rounds == (if retry {
                old(self).repair_rounds + 1
            } else {
                0
            }),
            final(self).iterations == old(self).iterations,
            final(self).max_iterations == old(self).max_iterations,
            final(self).final_text@ == old(self).final_text@,
    {
        if any_invalid && none_valid {
            self.repair_rounds = self.repair_rounds + 1;
            true
        } else {
            self.repair_rounds = 0;
            false
        }
    }

    /// The turn's outcome: reaching the iteration limit still returns what
    /// the model said, with a non-fatal error message for the frontend;
    /// cancellation and provider failures are errors. The flag says whether
    /// the turn counts for the memory updater (it ran to an end).
    pub fn finish(self, end: TurnEnd) -> (r: (Result<TurnResult, AgentError>, Option<String>, bool))
        requires
            self.wf(),
            end is Done ==> self.iterations >= 1,
            end matches TurnEnd::Failed(AgentError::IterationLimit(n)) ==> n == self.max_iterations
                && self.iterations == self.max_iterations,
        ensures
            match end {
                TurnEnd::Done => r.0 is Ok && r.1.is_none() && r.2,
                TurnEnd::Failed(AgentError::IterationLimit(n)) => r.0 is Ok && r.1.is_some()
                    && r.1.unwrap()@ == "stopped after "@ + decimal(n as nat)
                    + " model calls without finishing"@ && r.2,
                TurnEnd::Failed(e) => r.0 == Err::<TurnResult, AgentError>(e) && r.1.is_none() && !r.2,
            },
            r.0 is Ok ==> r.0->Ok_0.final_text@ == self.final_text@ && r.0->Ok_0.iterations
                == self.iterations && r.0->Ok_0.iterations <= self.max_iterations,
            end is Done ==> 1 <= r.0->Ok_0.iterations <= self.max_iterations,
    {
        let iterations = self.iterations;
        match end {
            TurnEnd::Done => (Ok(TurnResult { final_text: self.final_text, iterations }), None, true),
            TurnEnd::Failed(AgentError::IterationLimit(n)) => {
                let mut v = to_chars("stopped after ");
                push_decimal(&mut v, n as u64);
                extend_str(&mut v, " model calls without finishing");
                (
                    Ok(TurnResult { final_text: self.final_text, iterations }),
                    Some(from_chars(v.as_slice())),
                    true,
                )
            },
            TurnEnd::Failed(e) => (Err(e), None, false),
        }
    }
}

/// One `start_iteration` on a turn that has made `iterations` model calls
/// out of `max`: whether a call may go, and the count after it.
pub open spec fn iteration_step(iterations: nat, max: nat) -> (bool, nat) {
    if iterations < max {
        (true, iterations + 1)
    } else {
        (false, iterations)
    }
}

/// How many of `k` successive `start_iteration`s let a model call go.
pub open spec fn calls_allowed(iterations: nat, max: nat, k: nat) -> nat
    decreases k,
{
    if k == 0 {
        0
    } else {
        let (go, next) = iteration_step(iterations, max);
        (if go {
            1nat
        } else {
            0nat
        }) + calls_allowed(next, max, (k - 1) as nat)
    }
}

/// A turn never makes more than its limit of model calls: from a fresh
/// turn with limit `max`, however often the loop asks to start another
/// iteration (`start_iteration` steps as `iteration_step`), exactly
/// `min(k, max)` calls are let through.
pub proof fn law_at_most_max_calls(max: nat, k: nat)
    ensures
        calls_allowed(0, max, k) == if k < max {
            k
        } else {
            max
        },
        calls_allowed(0, max, k) <= max,
{
    lemma_calls_allowed(0, max, k);
}

proof fn lemma_calls_allowed(i: nat, max: nat, k: nat)
    requires
        i <= max,
    ensures
        calls_allowed(i, max, k) == if k < max - i {
            k
        } else {
            (max - i) as nat
        },
    decreases k,
{
    if k > 0 {
        let (go, next) = iteration_step(i, max);
        lemma_calls_allowed(next, max, (k - 1) as nat);
    }
}

// ---------------------------------------------------------------------------
// Running the calls of a reply
// ---------------------------------------------------------------------------

/// Calls that may run concurrently: read-only tools and subagent spawns
/// (an unknown tool runs with the sequential ones).
pub open spec fn concurrent_kind(k: Option<ToolKind>) -> bool {
    k == Some(ToolKind::ReadOnly) || k == Some(ToolKind::Spawn)
}

/// The indices `< n` whose kind passes (`want`) or fails (`!want`) the
/// concurrency test, in increasing order.
pub open spec fn indices_where(kinds: Seq<Option<ToolKind>>, n: nat, want: bool) -> Seq<usize>
    decreases n,
{
    if n == 0 {
        Seq::empty()
    } else {
        let r = indices_where(kinds, (n - 1) as nat, want);
        if concurrent_kind(kinds[n - 1]) == want {
            r.push((n - 1) as usize)
        } else {
            r
        }
    }
}

/// Split the valid calls of a reply (given their tools' kinds) into those
/// run concurrently and those run afterwards one by one, each in call
/// order.
pub fn partition_calls(kinds: &Vec<Option<ToolKind>>) -> (r: (Vec<usize>, Vec<usize>))
    ensures
        r.0@ == indices_where(kinds@, kinds@.len(), true),
        r.1@ == indices_where(kinds@, kinds@.len(), false),
{
    let mut conc: Vec<usize> = Vec::new();
    let mut seq: Vec<usize> = Vec::new();
    let mut i: usize = 0;
    while i < kinds.len()
        invariant
            i <= kinds@.len(),
            conc@ == indices_where(kinds@, i as nat, true),
            seq@ == indices_where(kinds@, i as nat, false),
        decreases kinds@.len() - i,
    {
        let c = match kinds[i] {
            Some(ToolKind::ReadOnly) | Some(ToolKind::Spawn) => true,
            _ => false,
        };
        if c {
            conc.push(i);
        } else {
            seq.push(i);
        }
        i = i + 1;
    }
    (conc, seq)
}

/// The results recorded for call `k`, in the order they came.
pub open spec fn results_for(rs: Seq<(usize, MessageView)>, k: nat) -> Seq<MessageView>
    decreases rs.len(),
{
    if rs.len() == 0 {
        Seq::empty()
    } else {
        let r = results_for(rs.drop_last(), k);
        if rs.last().0 == k {
            r.push(rs.last().1)
        } else {
            r
        }
    }
}

/// The results of calls `0..n`, in call order.
pub open spec fn in_call_order(rs: Seq<(usize, MessageView)>, n: nat) -> Seq<MessageView>
    decreases n,
{
    if n == 0 {
        Seq::empty()
    } else {
        in_call_order(rs, (n - 1) as nat) + results_for(rs, (n - 1) as nat)
    }
}

pub open spec fn result_views(rs: Seq<(usize, Message)>) -> Seq<(usize, MessageView)> {
    rs.map_values(|r: (usize, Message)| (r.0, r.1@))
}

/// The tool results of a reply's `n` calls, however they finished, put
/// back in call order for a deterministic transcript.
pub fn order_results(results: &Vec<(usize, Message)>, n: usize) -> (r: Vec<Message>)
    ensures
        msg_views(r@) == in_call_order(result_views(results@), n as nat),
{
    let ghost rv = result_views(results@);
    let mut out: Vec<Message> = Vec::new();
    let mut k: usize = 0;
    while k < n
        invariant
            k <= n,
            rv == result_views(results@),
            msg_views(out@) == in_call_order(rv, k as nat),
        decreases n - k,
    {
        let ghost base = out@;
        let mut j: usize = 0;
        while j < results.len()
            invariant
                j <= results@.len(),
                rv == result_views(results@),
                msg_views(out@) == msg_views(base) + results_for(rv.take(j as int), k as nat),
            decreases results@.len() - j,
        {
            proof {
                assert(rv.take(j + 1).drop_last() =~= rv.take(j as int));
                assert(rv.take(j + 1).last() == (results@[j as int].0, results@[j as int].1@));
            }
            if results[j].0 == k {
                let ghost before = out@;
                out.push(results[j].1.copy());
                assert(msg_views(out@) =~= msg_views(before).push(results@[j as int].1@));
            }
            j = j + 1;
        }
        assert(rv.take(results@.len() as int) =~= rv);
        k = k + 1;
    }
    out
}

/// Law: calls that each produced exactly one result get their results in
/// call order: the `k`-th result is the one of call `k`.
pub proof fn law_results_in_call_order(rs: Seq<(usize, MessageView)>, n: nat, k: nat)
    requires
        k < n,
        forall|i: nat| i < n ==> (#[trigger] results_for(rs, i)).len() == 1,
    ensures
        in_call_order(rs, n).len() == n,
        in_call_order(rs, n)[k as int] == results_for(rs, k)[0],
    decreases n,
{
    lemma_order_len(rs, n);
    if k < n - 1 {
        law_results_in_call_order(rs, (n - 1) as nat, k);
        assert(results_for(rs, (n - 1) as nat).len() == 1);
    } else {
        lemma_order_len(rs, (n - 1) as nat);
        assert(results_for(rs, (n - 1) as nat).len() == 1);
    }
}

proof fn lemma_order_len(rs: Seq<(usize, MessageView)>, n: nat)
    requires
        forall|i: nat| i < n ==> (#[trigger] results_for(rs, i)).len() == 1,
    ensures
        in_call_order(rs, n).len() == n,
    decreases n,
{
    if n > 0 {
        lemma_order_len(rs, (n - 1) as nat);
        assert(results_for(rs, (n - 1) as nat).len() == 1);
    }
}

// ---------------------------------------------------------------------------
// Tool-result texts
// ---------------------------------------------------------------------------

pub open spec fn comma_joined(v: Seq<Seq<char>>) -> Seq<char>
    decreases v.len(),
{
    if v.len() == 0 {
        Seq::empty()
    } else if v.len() == 1 {
        v[0]
    } else {
        comma_joined(v.drop_last()) + ", "@ + v.last()
    }
}

pub open spec fn str_views(v: Seq<&str>) -> Seq<Seq<char>> {
    v.map_values(|s: &str| s@)
}

/// The result for a call of a tool that does not exist.
pub fn unknown_tool_result(call_id: &str, name: &str, available: &Vec<&str>) -> (m: Message)
    ensures
        m@ == (MessageView {
            role: Role::Tool,
            content: "unknown tool `"@ + name@ + "`. Available tools: "@ + comma_joined(
                str_views(available@),
            ),
            tool_calls: Seq::empty(),
            tool_call_id: Some(call_id@),
        }),
{
    let ghost av = str_views(available@);
    let mut names: Vec<char> = Vec::new();
    let mut i: usize = 0;
    while i < available.len()
        invariant
            i <= available@.len(),
            av == str_views(available@),
            names@ == comma_joined(av.take(i as int)),
        decreases available@.len() - i,
    {
        proof {
            assert(av.take(i + 1).drop_last() =~= av.take(i as int));
            assert(av.take(i + 1).last() == available@[i as int]@);
        }
        let ghost before = names@;
        if i > 0 {
            extend_str(&mut names, ", ");
        }
        extend_str(&mut names, available[i]);
        proof {
            if i == 0 {
                assert(av.take(1)[0] == available@[0]@);
                assert(names@ =~= available@[0]@);
            } else {
                assert(names@ =~= before + ", "@ + available@[i as int]@);
            }
        }
        i = i + 1;
    }
    assert(av.take(available@.len() as int) =~= av);
    let mut v = to_chars("unknown tool `");
    extend_str(&mut v, name);
    extend_str(&mut v, "`. Available tools: ");
    crate::text::extend(&mut v, names.as_slice());
    let content = from_chars(v.as_slice());
    Message::tool_result(call_id, content.as_str())
}

/// The result for a call the rules denied.
pub fn denied_result(call_id: &str, reason: &str) -> (m: Message)
    ensures
        m@ == (MessageView {
            role: Role::Tool,
            content: "Permission denied: "@ + reason@,
            tool_calls: Seq::empty(),
            tool_call_id: Some(call_id@),
        }),
{
    let mut v = to_chars("Permission denied: ");
    extend_str(&mut v, reason);
    let content = from_chars(v.as_slice());
    Message::tool_result(call_id, content.as_str())
}

pub const DECLINED: &'static str = "The user declined this action. Ask them how to proceed or try a different approach.";

/// The result for a call the user declined.
pub fn declined_result(call_id: &str) -> (m: Message)
    ensures
        m@ == (MessageView {
            role: Role::Tool,
            content: DECLINED@,
            tool_calls: Seq::empty(),
            tool_call_id: Some(call_id@),
        }),
{
    Message::tool_result(call_id, DECLINED)
}

/// The result for a call that failed validation, asking for a corrected
/// call.
pub fn rejected_result(call_id: &str, reason: &str) -> (m: Message)
    ensures
        m@ == (MessageView {
            role: Role::Tool,
            content: "Tool call rejected: "@ + reason@ + ". Re-emit the call correcting this."@,
            tool_calls: Seq::empty(),
            tool_call_id: Some(call_id@),
        }),
{
    let mut v = to_chars("Tool call rejected: ");
    extend_str(&mut v, reason);
    extend_str(&mut v, ". Re-emit the call correcting this.");
    let content = from_chars(v.as_slice());
    Message::tool_result(call_id, content.as_str())
}

/// The result of a tool run: an error's text is marked `ERROR: `.
pub fn run_result(call_id: &str, output: &ToolOutput) -> (m: Message)
    ensures
        m@ == (MessageView {
            role: Role::Tool,
            content: if output.is_error {
                "ERROR: "@ + output.content@
            } else {
                output.content@
            },
            tool_calls: Seq::empty(),
            tool_call_id: Some(call_id@),
        }),
{
    if output.is_error {
        let mut v = to_chars("ERROR: ");
        extend_str(&mut v, output.content.as_str());
        let content = from_chars(v.as_slice());
        Message::tool_result(call_id, content.as_str())
    } else {
        Message::tool_result(call_id, output.content.as_str())
    }
}

/// The first 200 characters of a tool's output, for the frontend.
pub fn output_preview(content: &str) -> (r: String)
    ensures
        r@ == (if content@.len() > 200 {
            content@.take(200)
        } else {
            content@
        }),
{
    let cs = to_chars(content);
    let n = if cs.len() > 200 {
        200
    } else {
        cs.len()
    };
    let mut v: Vec<char> = Vec::new();
    let mut i: usize = 0;
    while i < n
        invariant
            i <= n <= cs@.len(),
            v@ == cs@.take(i as int),
        decreases n - i,
    {
        v.push(cs[i]);
        assert(cs@.take(i + 1) =~= cs@.take(i as int).push(cs@[i as int]));
        i = i + 1;
    }
    from_chars(v.as_slice())
}

// ---------------------------------------------------------------------------
// Settings
// ---------------------------------------------------------------------------

/// The thinking switch after choosing an effort tier: low effort forces
/// thinking off; leaving low clears a stale explicit off.
pub open spec fn think_after_effort(effort: Effort, think: Option<bool>) -> Option<bool> {
    if effort == Effort::Low {
        Some(false)
    } else if think == Some(false) {
        None
    } else {
        think
    }
}

/// See `think_after_effort`.
pub fn effort_think(effort: Effort, think: Option<bool>) -> (r: Option<bool>)
    ensures
        r == think_after_effort(effort, think),
{
    match effort {
        Effort::Low => Some(false),
        _ => match think {
            Some(false) => None,
            other => other,
        },
    }
}

// ---------------------------------------------------------------------------
// The working context: resume and background summaries
// ---------------------------------------------------------------------------

/// The non-system messages, in order.
pub open spec fn non_system(m: Seq<MessageView>) -> Seq<MessageView>
    decreases m.len(),
{
    if m.len() == 0 {
        m
    } else {
        let r = non_system(m.drop_last());
        if m.last().role == Role::System {
            r
        } else {
            r.push(m.last())
        }
    }
}

/// Add a resumed session's context after the current system prompt (the
/// stored one is dropped: mode or directory may have changed); the resumed
/// messages are already on disk, so their seq is 0.
pub fn resume_into(messages: &mut Vec<Message>, seqs: &mut Vec<u64>, resumed: &Vec<Message>)
    requires
        old(messages)@.len() == old(seqs)@.len(),
    ensures
        msg_views(final(messages)@) == msg_views(old(messages)@) + non_system(msg_views(resumed@)),
        final(seqs)@.len() == final(messages)@.len(),
        final(seqs)@.take(old(seqs)@.len() as int) == old(seqs)@,
        forall|i: int| old(seqs)@.len() <= i < final(seqs)@.len() ==> (#[trigger] final(seqs)@[i]) == 0,
{
    let ghost m0 = msg_views(messages@);
    let ghost s0 = seqs@;
    let ghost rv = msg_views(resumed@);
    let mut i: usize = 0;
    assert(s0.take(s0.len() as int) =~= s0);
    while i < resumed.len()
        invariant
            i <= resumed@.len(),
            rv == msg_views(resumed@),
            msg_views(messages@) == m0 + non_system(rv.take(i as int)),
            seqs@.len() == messages@.len(),
            seqs@.len() >= s0.len(),
            seqs@.take(s0.len() as int) == s0,
            forall|k: int| s0.len() <= k < seqs@.len() ==> (#[trigger] seqs@[k]) == 0,
        decreases resumed@.len() - i,
    {
        proof {
            assert(rv.take(i + 1).drop_last() =~= rv.take(i as int));
            assert(rv.take(i + 1).last() == resumed@[i as int]@);
        }
        if resumed[i].role != Role::System {
            let ghost before = messages@;
            let ghost sb = seqs@;
            messages.push(resumed[i].copy());
            seqs.push(0);
            assert(msg_views(messages@) =~= msg_views(before).push(resumed@[i as int]@));
            assert(seqs@.take(s0.len() as int) =~= sb.take(s0.len() as int));
        }
        i = i + 1;
    }
    assert(rv.take(resumed@.len() as int) =~= rv);
}

/// The name of the last tool call with this id, scanning messages and
/// their calls in order (a later call with the same id wins).
pub open spec fn call_name(m: Seq<MessageView>, id: Seq<char>) -> Option<Seq<char>>
    decreases m.len(),
{
    if m.len() == 0 {
        None
    } else {
        match last_call_name(m.last().tool_calls, id) {
            Some(n) => Some(n),
            None => call_name(m.drop_last(), id),
        }
    }
}

pub open spec fn last_call_name(c: Seq<crate::model::ToolCallView>, id: Seq<char>) -> Option<Seq<char>>
    decreases c.len(),
{
    if c.len() == 0 {
        None
    } else if c.last().id == id {
        Some(c.last().name)
    } else {
        last_call_name(c.drop_last(), id)
    }
}

/// Is a message an old tool result worth stubbing: a tool message over
/// `PRUNE_MIN_BYTES` bytes that is not a stub already?
pub open spec fn prunable(m: MessageView) -> bool {
    m.role == Role::Tool && byte_len(m.content) > PRUNE_MIN_BYTES && !PRUNE_STUB_PREFIX@.is_prefix_of(
        m.content,
    )
}

/// The stub for message `i` of the context prefix `m`.
pub open spec fn stub_for(m: Seq<MessageView>, i: int) -> Seq<char> {
    prune_stub_text(
        match m[i].tool_call_id {
            Some(id) => match call_name(m, id) {
                Some(n) => n,
                None => "tool"@,
            },
            None => "tool"@,
        },
        m[i].content,
    )
}

/// The stubs for the prunable messages among the first `n` of the prefix
/// `m`, with their indices, in order.
pub open spec fn stubs_upto(m: Seq<MessageView>, n: nat) -> Seq<(int, Seq<char>)>
    decreases n,
{
    if n == 0 {
        Seq::empty()
    } else {
        let r = stubs_upto(m, (n - 1) as nat);
        if prunable(m[n - 1]) {
            r.push(((n - 1) as int, stub_for(m, n - 1)))
        } else {
            r
        }
    }
}

pub open spec fn stub_views(v: Seq<(usize, String)>) -> Seq<(int, Seq<char>)> {
    v.map_values(|p: (usize, String)| (p.0 as int, p.1@))
}

fn find_call_name(messages: &Vec<Message>, cut: usize, id: &str) -> (r: Option<String>)
    requires
        cut <= messages@.len(),
    ensures
        crate::model::opt_view(r) == call_name(msg_views(messages@).take(cut as int), id@),
{
    let ghost mv = msg_views(messages@);
    let mut i: usize = cut;
    while i > 0
        invariant
            i <= cut <= messages@.len(),
            mv == msg_views(messages@),
            call_name(mv.take(cut as int), id@) == call_name(mv.take(i as int), id@),
        decreases i,
    {
        let m = &messages[i - 1];
        let ghost p = mv.take(i as int);
        assert(p.last() == m@);
        assert(p.drop_last() =~= mv.take(i - 1));
        let mut j: usize = m.tool_calls.len();
        let ghost cv = m@.tool_calls;
        assert(cv.take(cv.len() as int) =~= cv);
        while j > 0
            invariant
                j <= m.tool_calls@.len(),
                cv == crate::model::call_views(m.tool_calls@),
                last_call_name(cv, id@) == last_call_name(cv.take(j as int), id@),
                0 < i <= cut <= messages@.len(),
                mv == msg_views(messages@),
                call_name(mv.take(cut as int), id@) == call_name(mv.take(i as int), id@),
                mv.take(i as int).last() == m@,
                m@.tool_calls == cv,
            decreases j,
        {
            let c = &m.tool_calls[j - 1];
            let ghost q = cv.take(j as int);
            assert(q.last() == c@);
            assert(q.drop_last() =~= cv.take(j - 1));
            if crate::text::str_eq(c.id.as_str(), id) {
                return Some(c.name.clone());
            }
            j = j - 1;
        }
        assert(cv.take(0) =~= Seq::<crate::model::ToolCallView>::empty());
        assert(cv.take(cv.len() as int) =~= cv);
        i = i - 1;
    }
    assert(mv.take(0) =~= Seq::<MessageView>::empty());
    None
}

/// The stubs that replace old tool results before the prune cut (the start
/// of the kept user turns): each prunable message there, with the name of
/// the tool that produced it (`tool` when unknown).
pub fn prune_plan(messages: &Vec<Message>, cut: usize) -> (r: Vec<(usize, String)>)
    requires
        cut <= messages@.len(),
    ensures
        stub_views(r@) == stubs_upto(msg_views(messages@).take(cut as int), cut as nat),
{
    let ghost mv = msg_views(messages@);
    let ghost pre = mv.take(cut as int);
    let mut r: Vec<(usize, String)> = Vec::new();
    let mut i: usize = 0;
    while i < cut
        invariant
            i <= cut <= messages@.len(),
            mv == msg_views(messages@),
            pre == mv.take(cut as int),
            stub_views(r@) == stubs_upto(pre, i as nat),
        decreases cut - i,
    {
        let m = &messages[i];
        assert(pre[i as int] == m@);
        let (chars, bytes) = crate::text::chars_and_len(m.content.as_str());
        let prefix = to_chars(PRUNE_STUB_PREFIX);
        let is_stub = crate::text::starts_with_exec(chars.as_slice(), prefix.as_slice());
        if m.role == Role::Tool && bytes > PRUNE_MIN_BYTES && !is_stub {
            let name = match &m.tool_call_id {
                Some(id) => find_call_name(messages, cut, id.as_str()),
                None => None,
            };
            let stub = match &name {
                Some(n) => ContextManager::prune_stub(Some(n.as_str()), m.content.as_str()),
                None => ContextManager::prune_stub(None, m.content.as_str()),
            };
            let ghost before = r@;
            r.push((i, stub));
            assert(stub_views(r@) =~= stub_views(before).push((i as int, stub_for(pre, i as int))));
        }
        i = i + 1;
    }
    r
}

pub open spec fn with_content(m: MessageView, c: Seq<char>) -> MessageView {
    MessageView { role: m.role, content: c, tool_calls: m.tool_calls, tool_call_id: m.tool_call_id }
}

/// The context with each stub put in place of its message's content.
pub open spec fn apply_stubs_spec(m: Seq<MessageView>, st: Seq<(int, Seq<char>)>) -> Seq<MessageView>
    decreases st.len(),
{
    if st.len() == 0 {
        m
    } else {
        let r = apply_stubs_spec(m, st.drop_last());
        let (i, c) = st.last();
        if 0 <= i < r.len() {
            r.update(i, with_content(r[i], c))
        } else {
            r
        }
    }
}

/// Put the stubs of `prune_plan` in place of the old tool results.
pub fn apply_stubs(messages: &mut Vec<Message>, stubs: Vec<(usize, String)>)
    ensures
        msg_views(final(messages)@) == apply_stubs_spec(msg_views(old(messages)@), stub_views(stubs@)),
{
    let ghost m0 = msg_views(messages@);
    let ghost sv = stub_views(stubs@);
    let mut k: usize = 0;
    while k < stubs.len()
        invariant
            k <= stubs@.len(),
            sv == stub_views(stubs@),
            msg_views(messages@) == apply_stubs_spec(m0, sv.take(k as int)),
        decreases stubs@.len() - k,
    {
        proof {
            assert(sv.take(k + 1).drop_last() =~= sv.take(k as int));
            assert(sv.take(k + 1).last() == (stubs@[k as int].0 as int, stubs@[k as int].1@));
        }
        let i = stubs[k].0;
        if i < messages.len() {
            let ghost before = msg_views(messages@);
            let m = &messages[i];
            let updated = Message {
                role: m.role,
                content: stubs[k].1.clone(),
                tool_calls: crate::model::copy_calls(&m.tool_calls),
                tool_call_id: crate::model::copy_opt_string(&m.tool_call_id),
            };
            messages.set(i, updated);
            assert(msg_views(messages@) =~= before.update(i as int, with_content(before[i as int], stubs@[k as int].1@)));
        }
        k = k + 1;
    }
    assert(sv.take(stubs@.len() as int) =~= sv);
}

proof fn lemma_apply_stubs_upto(m: Seq<MessageView>, n: nat)
    requires
        n <= m.len(),
    ensures
        apply_stubs_spec(m, stubs_upto(m, n)).len() == m.len(),
        forall|k: int| 0 <= k < m.len() ==> #[trigger] apply_stubs_spec(m, stubs_upto(m, n))[k] == if k
            < n && prunable(m[k]) {
            with_content(m[k], stub_for(m, k))
        } else {
            m[k]
        },
    decreases n,
{
    if n > 0 {
        lemma_apply_stubs_upto(m, (n - 1) as nat);
        let st = stubs_upto(m, n);
        if prunable(m[n - 1]) {
            assert(st.drop_last() == stubs_upto(m, (n - 1) as nat));
        } else {
            assert(st == stubs_upto(m, (n - 1) as nat));
        }
    }
}

proof fn lemma_stubs_empty(m: Seq<MessageView>, n: nat)
    requires
        n <= m.len(),
        forall|k: int| 0 <= k < n ==> !prunable(#[trigger] m[k]),
    ensures
        stubs_upto(m, n) == Seq::<(int, Seq<char>)>::empty(),
    decreases n,
{
    if n > 0 {
        lemma_stubs_empty(m, (n - 1) as nat);
        assert(!prunable(m[n - 1]));
    }
}

/// Pruning law: pruning is idempotent; once the stubs are in place, the
/// same cut finds nothing more to prune.
pub proof fn law_prune_idempotent(m: Seq<MessageView>, n: nat)
    requires
        n <= m.len(),
    ensures
        stubs_upto(apply_stubs_spec(m, stubs_upto(m, n)), n).len() == 0,
{
    lemma_apply_stubs_upto(m, n);
    let a = apply_stubs_spec(m, stubs_upto(m, n));
    assert forall|k: int| 0 <= k < n implies !prunable(#[trigger] a[k]) by {
        if prunable(m[k]) {
            let name = match m[k].tool_call_id {
                Some(id) => match call_name(m, id) {
                    Some(x) => x,
                    None => "tool"@,
                },
                None => "tool"@,
            };
            let stub = stub_for(m, k);
            let rest = ": "@ + name + " — "@ + crate::text::decimal(crate::text::lines(m[k].content).len()) + " lines / "@
                + crate::text::decimal(byte_len(m[k].content)) + " bytes — first line: \""@ + crate::context::cap_with_ellipsis(
                crate::context::first_line(m[k].content),
                crate::context::STUB_HEAD_CAP as nat,
            ) + "\" — full output in session log; re-run the tool if you need it]"@;
            assert(stub =~= PRUNE_STUB_PREFIX@ + rest);
            assert(stub.take(PRUNE_STUB_PREFIX@.len() as int) =~= PRUNE_STUB_PREFIX@);
            assert(a[k].content == stub);
        }
    }
    lemma_stubs_empty(a, n);
}

/// A summary computed in the background, waiting for the next turn.
pub struct PendingCompaction {
    /// The context generation the summary was computed against.
    pub generation: u64,
    /// How many messages after the system message it summarizes.
    pub old_len: usize,
    /// The persisted seq range it replaces, if any was persisted.
    pub old_range: Option<(u64, u64)>,
    /// The summary and its acknowledgement.
    pub replacement: Vec<Message>,
}

/// The context after splicing a summary in: the system message, the
/// replacement, then everything after the summarized messages.
pub open spec fn spliced(m: Seq<MessageView>, old_len: nat, rep: Seq<MessageView>) -> Seq<MessageView> {
    seq![m[0]] + rep + m.skip(1 + old_len as int)
}

/// Splice a background summary in at a turn boundary. A summary computed
/// against another generation of the context (a blocking compaction ran
/// meanwhile) is stale and discarded (`None`). Otherwise the new messages
/// and their seqs: the system message keeps its seq, the others are 0.
pub fn splice_pending(messages: &Vec<Message>, seqs: &Vec<u64>, generation: u64, pending: &PendingCompaction) -> (r: Option<(Vec<Message>, Vec<u64>)>)
    requires
        messages@.len() >= 1,
        seqs@.len() == messages@.len(),
        pending.generation == generation ==> 1 + pending.old_len <= messages@.len(),
    ensures
        match r {
            None => pending.generation != generation,
            Some((m, s)) => pending.generation == generation && msg_views(m@) == spliced(
                msg_views(messages@),
                pending.old_len as nat,
                msg_views(pending.replacement@),
            ) && s@.len() == m@.len() && s@[0] == seqs@[0] && forall|i: int|
                1 <= i < s@.len() ==> (#[trigger] s@[i]) == 0,
        },
{
    if pending.generation != generation {
        return None;
    }
    let ghost mv = msg_views(messages@);
    let ghost rep = msg_views(pending.replacement@);
    let mut out: Vec<Message> = Vec::new();
    out.push(messages[0].copy());
    let mut j: usize = 0;
    while j < pending.replacement.len()
        invariant
            j <= pending.replacement@.len(),
            rep == msg_views(pending.replacement@),
            mv == msg_views(messages@),
            messages@.len() >= 1,
            msg_views(out@) =~= seq![mv[0]] + rep.take(j as int),
        decreases pending.replacement@.len() - j,
    {
        let ghost before = out@;
        out.push(pending.replacement[j].copy());
        assert(msg_views(out@) =~= msg_views(before).push(rep[j as int]));
        assert(rep.take(j + 1) =~= rep.take(j as int).push(rep[j as int]));
        j = j + 1;
    }
    assert(rep.take(pending.replacement@.len() as int) =~= rep);
    let ml = messages.len();
    let start = 1 + pending.old_len;
    let mut i: usize = start;
    while i < messages.len()
        invariant
            start <= i <= messages@.len(),
            start == 1 + pending.old_len,
            rep == msg_views(pending.replacement@),
            mv == msg_views(messages@),
            msg_views(out@) =~= seq![mv[0]] + rep + mv.subrange(start as int, i as int),
        decreases messages@.len() - i,
    {
        let ghost before = out@;
        out.push(messages[i].copy());
        assert(msg_views(out@) =~= msg_views(before).push(mv[i as int]));
        assert(mv.subrange(start as int, i + 1) =~= mv.subrange(start as int, i as int).push(mv[i as int]));
        i = i + 1;
    }
    assert(mv.subrange(start as int, messages@.len() as int) =~= mv.skip(start as int));
    let mut s: Vec<u64> = Vec::new();
    s.push(seqs[0]);
    let mut k: usize = 1;
    while k < out.len()
        invariant
            1 <= k <= out@.len(),
            seqs@.len() >= 1,
            s@.len() == k,
            s@[0] == seqs@[0],
            forall|q: int| 1 <= q < k ==> (#[trigger] s@[q]) == 0,
        decreases out@.len() - k,
    {
        s.push(0);
        k = k + 1;
    }
    Some((out, s))
}

/// The persisted seqs among the summarized messages (those after the
/// system message, up to `old_len`), first and last; `None` when none was
/// persisted.
pub open spec fn positive_seqs(s: Seq<u64>) -> Seq<u64>
    decreases s.len(),
{
    if s.len() == 0 {
        s
    } else {
        let r = positive_seqs(s.drop_last());
        if s.last() > 0 {
            r.push(s.last())
        } else {
            r
        }
    }
}

pub open spec fn seq_range(seqs: Seq<u64>, old_len: nat) -> Option<(u64, u64)> {
    let p = positive_seqs(seqs.subrange(1, 1 + old_len as int));
    if p.len() == 0 {
        None
    } else {
        Some((p[0], p.last()))
    }
}

/// See `seq_range`.
pub fn old_seq_range(seqs: &Vec<u64>, old_len: usize) -> (r: Option<(u64, u64)>)
    requires
        1 + old_len <= seqs@.len(),
    ensures
        r == seq_range(seqs@, old_len as nat),
{
    let ghost w = seqs@.subrange(1, 1 + old_len);
    let mut first: Option<u64> = None;
    let mut last: u64 = 0;
    let mut i: usize = 0;
    while i < old_len
        invariant
            i <= old_len,
            1 + old_len <= seqs@.len(),
            w == seqs@.subrange(1, 1 + old_len),
            match first {
                None => positive_seqs(w.take(i as int)).len() == 0,
                Some(f) => positive_seqs(w.take(i as int)).len() > 0 && positive_seqs(w.take(i as int))[0]
                    == f && positive_seqs(w.take(i as int)).last() == last,
            },
        decreases old_len - i,
    {
        let x = seqs[1 + i];
        proof {
            assert(w.take(i + 1).drop_last() =~= w.take(i as int));
            assert(w.take(i + 1).last() == x);
        }
        if x > 0 {
            if first.is_none() {
                first = Some(x);
            }
            last = x;
        }
        i = i + 1;
    }
    assert(w.take(old_len as int) =~= w);
    match first {
        Some(f) => Some((f, last)),
        None => None,
    }
}

// ---------------------------------------------------------------------------
// Compaction inputs
// ---------------------------------------------------------------------------

/// The conversation's goal: the first user message among the old turns
/// (empty when there is none).
pub open spec fn first_user(old: Seq<MessageView>) -> Seq<char>
    decreases old.len(),
{
    if old.len() == 0 {
        Seq::empty()
    } else if old[0].role == Role::User {
        old[0].content
    } else {
        first_user(old.drop_first())
    }
}

/// `[<Role>] <content>` per old turn, each on its own line.
pub open spec fn plain_transcript(old: Seq<MessageView>) -> Seq<char>
    decreases old.len(),
{
    if old.len() == 0 {
        Seq::empty()
    } else {
        plain_transcript(old.drop_last()) + "["@ + crate::context::role_name(old.last().role) + "] "@
            + old.last().content + "\n"@
    }
}

/// What the summarizer is given for the old turns: the goal and the
/// transcript (see `first_user`, `plain_transcript`).
pub fn compaction_inputs(old: &[Message]) -> (r: (String, String))
    ensures
        r.0@ == first_user(msg_views(old@)),
        r.1@ == plain_transcript(msg_views(old@)),
{
    let ghost mv = msg_views(old@);
    let mut goal: Option<usize> = None;
    let mut t: Vec<char> = Vec::new();
    let mut i: usize = 0;
    assert(mv.skip(0) =~= mv);
    assert(mv.take(0) =~= Seq::<MessageView>::empty());
    while i < old.len()
        invariant
            i <= old@.len(),
            mv == msg_views(old@),
            t@ == plain_transcript(mv.take(i as int)),
            match goal {
                Some(g) => g < i && first_user(mv) == mv[g as int].content,
                None => first_user(mv) == first_user(mv.skip(i as int)),
            },
        decreases old@.len() - i,
    {
        let m = &old[i];
        assert(mv[i as int] == m@);
        if goal.is_none() {
            let ghost rest = mv.skip(i as int);
            assert(rest[0] == mv[i as int]);
            assert(rest.drop_first() =~= mv.skip(i + 1));
            if m.role == Role::User {
                goal = Some(i);
            }
        }
        t.push('[');
        crate::context::push_role_name(&mut t, m.role);
        extend_str(&mut t, "] ");
        extend_str(&mut t, m.content.as_str());
        t.push('\n');
        proof {
            assert(mv.take(i + 1).drop_last() =~= mv.take(i as int));
            assert(t@ =~= plain_transcript(mv.take(i as int)) + "["@ + crate::context::role_name(m@.role) + "] "@
                + m@.content + "\n"@) by {
                reveal_strlit("[");
                reveal_strlit("] ");
                reveal_strlit("\n");
            }
        }
        i = i + 1;
    }
    assert(mv.take(old@.len() as int) =~= mv);
    let g = match goal {
        Some(k) => old[k].content.clone(),
        None => {
            assert(mv.skip(old@.len() as int) =~= Seq::<MessageView>::empty());
            String::new()
        },
    };
    (g, from_chars(t.as_slice()))
}

/// The sequence numbers after a compaction: the system prompt keeps its
/// own, every other message has 0 (its history is already on disk).
pub fn compacted_seqs(system_seq: u64, len: usize) -> (r: Vec<u64>)
    requires
        len > 0,
    ensures
        r@.len() == len,
        r@[0] == system_seq,
        forall|i: int| 1 <= i < len ==> r@[i] == 0,
{
    let mut r: Vec<u64> = Vec::new();
    r.push(system_seq);
    while r.len() < len
        invariant
            1 <= r@.len() <= len,
            r@[0] == system_seq,
            forall|i: int| 1 <= i < r@.len() ==> r@[i] == 0,
        decreases len - r@.len(),
    {
        r.push(0);
    }
    r
}

/// The JSON schema that constrains a reply to tool calls (the repair
/// pipeline's last resort): a non-empty `tool_calls` array whose items
/// name one of `names` and carry an arguments object.
pub open spec fn format_schema_text(quoted_names: Seq<Seq<char>>) -> Seq<char> {
    "{\"properties\":{\"tool_calls\":{\"items\":{\"properties\":{\"arguments\":{\"type\":\"object\"},\"name\":{\"enum\":["@
        + crate::text::join(quoted_names, ","@)
        + "],\"type\":\"string\"}},\"required\":[\"name\",\"arguments\"],\"type\":\"object\"},\"minItems\":1,\"type\":\"array\"}},\"required\":[\"tool_calls\"],\"type\":\"object\"}"@
}

/// See `format_schema_text`; the names are JSON-quoted.
pub fn tool_call_format_schema(names: &Vec<String>) -> (r: String)
    ensures
        r@ == format_schema_text(names@.map_values(|n: String| crate::json::json_quoted(n@))),
{
    let ghost qv = names@.map_values(|n: String| crate::json::json_quoted(n@));
    let mut q: Vec<Vec<char>> = Vec::new();
    let mut i: usize = 0;
    while i < names.len()
        invariant
            i <= names@.len(),
            qv == names@.map_values(|n: String| crate::json::json_quoted(n@)),
            crate::text::views(q@) =~= qv.take(i as int),
        decreases names@.len() - i,
    {
        let c = to_chars(crate::json::quote_json(names[i].as_str()).as_str());
        let ghost before = crate::text::views(q@);
        q.push(c);
        assert(crate::text::views(q@) =~= before.push(qv[i as int]));
        assert(qv.take(i + 1) =~= qv.take(i as int).push(qv[i as int]));
        i = i + 1;
    }
    assert(qv.take(names@.len() as int) =~= qv);
    let comma = to_chars(",");
    let joined = crate::text::join_exec(q.as_slice(), comma.as_slice());
    let mut v = to_chars(
        "{\"properties\":{\"tool_calls\":{\"items\":{\"properties\":{\"arguments\":{\"type\":\"object\"},\"name\":{\"enum\":[",
    );
    crate::text::extend(&mut v, joined.as_slice());
    extend_str(
        &mut v,
        "],\"type\":\"string\"}},\"required\":[\"name\",\"arguments\"],\"type\":\"object\"},\"minItems\":1,\"type\":\"array\"}},\"required\":[\"tool_calls\"],\"type\":\"object\"}",
    );
    from_chars(v.as_slice())
}

} // verus!
