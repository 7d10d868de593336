//! Assembly of streamed model responses. Each provider's parsed stream
//! events go into an assembler, which keeps what spans events (tool calls
//! whose arguments arrive in pieces, token usage, the stop reason) and
//! hands out whole `ChatDelta`s.
use vstd::prelude::*;

use crate::json::{canonical_json, json_canon, json_quoted, quote_json};
use crate::model::{delta_views, ChatDelta, DeltaView, StopReason, ToolCall, ToolCallView, Usage};
use crate::text::{decimal, extend_str, from_chars, push_decimal, str_eq, to_chars, trim, trim_exec};

verus! {

/// A tool call's arguments once its text is complete: the JSON it holds,
/// `{}` when blank, else the text itself as a JSON string.
pub open spec fn args_value(t: Seq<char>) -> Seq<char> {
    match json_canon(t) {
        Some(c) => c,
        None => if trim(t).len() == 0 {
            "{}"@
        } else {
            json_quoted(t)
        },
    }
}

/// Finish streamed argument text (see `args_value`).
pub fn finish_arguments(t: &str) -> (r: String)
    ensures
        r@ == args_value(t@),
{
    match canonical_json(t) {
        Some(c) => c,
        None => {
            let c = to_chars(t);
            let tr = trim_exec(c.as_slice());
            if tr.len() == 0 {
                crate::text::own("{}")
            } else {
                quote_json(t)
            }
        },
    }
}

// ---------------------------------------------------------------------------
// OpenAI-compatible chunks
// ---------------------------------------------------------------------------

/// `function` part of a streamed tool-call fragment.
pub struct FunctionDelta {
    pub name: Option<String>,
    pub arguments: Option<String>,
}

/// One streamed tool-call fragment.
pub struct ToolCallFragment {
    pub index: usize,
    pub id: Option<String>,
    pub function: Option<FunctionDelta>,
}

/// The first choice of a chunk.
pub struct OpenAiChoice {
    pub content: Option<String>,
    pub tool_calls: Vec<ToolCallFragment>,
    pub finish_reason: Option<String>,
}

/// One parsed `chat/completions` stream chunk.
pub struct OpenAiChunk {
    pub usage: Option<Usage>,
    pub choices: Vec<OpenAiChoice>,
}

/// A tool call being assembled from fragments.
pub struct PartialCall {
    pub id: Option<String>,
    pub name: String,
    pub arguments: String,
}

pub struct PartialView {
    pub id: Option<Seq<char>>,
    pub name: Seq<char>,
    pub arguments: Seq<char>,
}

impl View for PartialCall {
    type V = PartialView;

    open spec fn view(&self) -> PartialView {
        PartialView { id: crate::model::opt_view(self.id), name: self.name@, arguments: self.arguments@ }
    }
}

pub open spec fn partial_views(s: Seq<PartialCall>) -> Seq<PartialView> {
    s.map_values(|p: PartialCall| p@)
}

pub struct FragmentView {
    pub index: usize,
    pub id: Option<Seq<char>>,
    pub name: Option<Seq<char>>,
    pub arguments: Option<Seq<char>>,
}

impl View for ToolCallFragment {
    type V = FragmentView;

    open spec fn view(&self) -> FragmentView {
        FragmentView {
            index: self.index,
            id: crate::model::opt_view(self.id),
            name: match self.function {
                Some(f) => crate::model::opt_view(f.name),
                None => None,
            },
            arguments: match self.function {
                Some(f) => crate::model::opt_view(f.arguments),
                None => None,
            },
        }
    }
}

pub open spec fn fragment_views(s: Seq<ToolCallFragment>) -> Seq<FragmentView> {
    s.map_values(|f: ToolCallFragment| f@)
}

pub open spec fn blank_partial() -> PartialView {
    PartialView { id: None, name: Seq::empty(), arguments: Seq::empty() }
}

pub open spec fn opt_text(o: Option<Seq<char>>) -> Seq<char> {
    match o {
        Some(t) => t,
        None => Seq::empty(),
    }
}

/// One fragment folded in: the list grows to reach its index; a non-empty
/// id replaces the call's id; name and argument pieces are appended.
pub open spec fn fold_fragment(calls: Seq<PartialView>, f: FragmentView) -> Seq<PartialView> {
    let grown = if calls.len() <= f.index {
        calls + Seq::new((f.index + 1 - calls.len()) as nat, |i: int| blank_partial())
    } else {
        calls
    };
    let c = grown[f.index as int];
    grown.update(
        f.index as int,
        PartialView {
            id: match f.id {
                Some(i) => if i.len() > 0 {
                    Some(i)
                } else {
                    c.id
                },
                None => c.id,
            },
            name: c.name + opt_text(f.name),
            arguments: c.arguments + opt_text(f.arguments),
        },
    )
}

pub open spec fn fold_fragments(calls: Seq<PartialView>, fs: Seq<FragmentView>) -> Seq<PartialView>
    decreases fs.len(),
{
    if fs.len() == 0 {
        calls
    } else {
        fold_fragment(fold_fragments(calls, fs.drop_last()), fs.last())
    }
}

/// The whole calls flushed at a finish: in index order, each with its id or
/// `<base>_<index>` when the stream gave none.
pub open spec fn flushed(calls: Seq<PartialView>, base: Seq<char>) -> Seq<DeltaView> {
    Seq::new(
        calls.len(),
        |i: int|
            DeltaView::ToolCall(
                ToolCallView {
                    id: match calls[i].id {
                        Some(id) => id,
                        None => base + seq!['_'] + decimal(i as nat),
                    },
                    name: calls[i].name,
                    arguments: args_value(calls[i].arguments),
                },
            ),
    )
}

/// `finish_reason` as a stop reason; a plain `stop` after tool calls means
/// the model stopped to use them.
pub open spec fn openai_reason(r: Seq<char>, saw_tool_call: bool) -> StopReason {
    if r == "tool_calls"@ {
        StopReason::ToolUse
    } else if r == "stop"@ {
        if saw_tool_call {
            StopReason::ToolUse
        } else {
            StopReason::EndTurn
        }
    } else if r == "length"@ {
        StopReason::MaxTokens
    } else {
        StopReason::Other
    }
}

/// The stop reason an OpenAI-compatible chunk records: once any tool-call
/// fragment has arrived (in this chunk or before), a plain `stop` or
/// `tool_calls` means the model stopped to use the tools; without one,
/// `stop` ends the turn and `length` hit the token limit. Whether a
/// fragment has arrived sticks.
pub proof fn law_stop_after_tool_calls_is_tool_use(
    calls: Seq<PartialView>,
    saw: bool,
    finish: Option<StopReason>,
    usage: Option<Usage>,
    content: Option<Seq<char>>,
    frags: Seq<FragmentView>,
    reason: Seq<char>,
    base: Seq<char>,
)
    ensures
        ({
            let r = openai_step(calls, saw, finish, usage, Some((content, frags, Some(reason))), base);
            &&& r.1 == (saw || frags.len() > 0)
            &&& (saw || frags.len() > 0) && (reason == "stop"@ || reason == "tool_calls"@) ==> r.2
                == Some(StopReason::ToolUse)
            &&& !saw && frags.len() == 0 && reason == "stop"@ ==> r.2 == Some(StopReason::EndTurn)
            &&& reason == "length"@ ==> r.2 == Some(StopReason::MaxTokens)
            &&& r.0.len() == 0
        }),
        openai_step(calls, saw, finish, usage, Some((content, frags, None)), base).1 == (saw || frags.len()
            > 0),
        openai_step(calls, saw, finish, usage, Some((content, frags, None)), base).2 == finish,
{
    reveal_strlit("stop");
    reveal_strlit("tool_calls");
    reveal_strlit("length");
    assert("stop"@.len() != "tool_calls"@.len());
    assert("length"@.len() != "tool_calls"@.len());
    assert("length"@ != "stop"@) by {
        assert("length"@[0] != "stop"@[0]);
    }
}

/// Assembly state for OpenAI-compatible streams.
pub struct ChunkAssembler {
    pub calls: Vec<PartialCall>,
    pub saw_tool_call: bool,
    pub finish: Option<StopReason>,
}

/// What one chunk does: its usage and non-empty text go out at once; its
/// tool-call fragments are folded into the pending calls; a finish reason
/// flushes every pending call and records the stop reason.
pub open spec fn openai_step(
    calls: Seq<PartialView>,
    saw: bool,
    finish: Option<StopReason>,
    usage: Option<Usage>,
    first: Option<(Option<Seq<char>>, Seq<FragmentView>, Option<Seq<char>>)>,
    base: Seq<char>,
) -> (Seq<PartialView>, bool, Option<StopReason>, Seq<DeltaView>) {
    let out0 = match usage {
        Some(u) => seq![DeltaView::Usage(u)],
        None => Seq::empty(),
    };
    match first {
        None => (calls, saw, finish, out0),
        Some((content, frags, reason)) => {
            let out1 = out0 + match content {
                Some(t) => if t.len() > 0 {
                    seq![DeltaView::Text(t)]
                } else {
                    Seq::empty()
                },
                None => Seq::empty(),
            };
            let folded = fold_fragments(calls, frags);
            let saw2 = saw || frags.len() > 0;
            match reason {
                None => (folded, saw2, finish, out1),
                Some(r) => (
                    Seq::empty(),
                    saw2,
                    Some(openai_reason(r, saw2)),
                    out1 + flushed(folded, base),
                ),
            }
        },
    }
}

pub open spec fn first_choice(c: OpenAiChunk) -> Option<
    (Option<Seq<char>>, Seq<FragmentView>, Option<Seq<char>>),
> {
    if c.choices@.len() == 0 {
        None
    } else {
        let ch = c.choices@[0];
        Some(
            (
                crate::model::opt_view(ch.content),
                fragment_views(ch.tool_calls@),
                crate::model::opt_view(ch.finish_reason),
            ),
        )
    }
}

fn reason_exec(r: &str, saw: bool) -> (s: StopReason)
    ensures
        s == openai_reason(r@, saw),
{
    if str_eq(r, "tool_calls") {
        StopReason::ToolUse
    } else if str_eq(r, "stop") {
        if saw {
            StopReason::ToolUse
        } else {
            StopReason::EndTurn
        }
    } else if str_eq(r, "length") {
        StopReason::MaxTokens
    } else {
        StopReason::Other
    }
}

fn copy_opt(o: &Option<String>) -> (r: Option<String>)
    ensures
        crate::model::opt_view(r) == crate::model::opt_view(*o),
{
    match o {
        Some(s) => Some(crate::text::own(s.as_str())),
        None => None,
    }
}

impl ChunkAssembler {
    pub fn new() -> (a: ChunkAssembler)
        ensures
            a.calls@.len() == 0,
            !a.saw_tool_call,
            a.finish is None,
    {
        ChunkAssembler { calls: Vec::new(), saw_tool_call: false, finish: None }
    }

    fn fold(&mut self, f: &ToolCallFragment)
        ensures
            partial_views(final(self).calls@) == fold_fragment(partial_views(old(self).calls@), f@),
            final(self).saw_tool_call == old(self).saw_tool_call,
            final(self).finish == old(self).finish,
    {
        let ghost before = partial_views(self.calls@);
        while self.calls.len() <= f.index
            invariant
                partial_views(self.calls@) == before + Seq::new(
                    (self.calls@.len() - before.len()) as nat,
                    |i: int| blank_partial(),
                ),
                before.len() <= self.calls@.len(),
                before.len() <= f.index + 1 ==> self.calls@.len() <= f.index + 1,
                before.len() > f.index ==> self.calls@.len() == before.len(),
                self.saw_tool_call == old(self).saw_tool_call,
                self.finish == old(self).finish,
            decreases f.index + 1 - self.calls@.len(),
        {
            let ghost pre = partial_views(self.calls@);
            let blank = PartialCall { id: None, name: String::new(), arguments: String::new() };
            assert(blank@ == blank_partial());
            self.calls.push(blank);
            assert(partial_views(self.calls@) =~= pre.push(blank_partial()));
            assert(partial_views(self.calls@) =~= before + Seq::new(
                (self.calls@.len() - before.len()) as nat,
                |i: int| blank_partial(),
            ));
        }
        let idx = f.index;
        let ghost grown = partial_views(self.calls@);
        assert(grown =~= if before.len() <= f.index {
            before + Seq::new((f.index + 1 - before.len()) as nat, |i: int| blank_partial())
        } else {
            before
        });
        let old_id = copy_opt(&self.calls[idx].id);
        let mut name = to_chars(self.calls[idx].name.as_str());
        let mut args = to_chars(self.calls[idx].arguments.as_str());
        let id = match &f.id {
            Some(i) => {
                let ic = to_chars(i.as_str());
                if ic.len() > 0 {
                    Some(crate::text::own(i.as_str()))
                } else {
                    old_id
                }
            },
            None => old_id,
        };
        match &f.function {
            Some(func) => {
                match &func.name {
                    Some(n) => extend_str(&mut name, n.as_str()),
                    None => {},
                }
                match &func.arguments {
                    Some(a) => extend_str(&mut args, a.as_str()),
                    None => {},
                }
            },
            None => {},
        }
        let ghost fv = f@;
        assert(name@ =~= grown[idx as int].name + opt_text(fv.name));
        assert(args@ =~= grown[idx as int].arguments + opt_text(fv.arguments));
        let p = PartialCall { id, name: from_chars(name.as_slice()), arguments: from_chars(args.as_slice()) };
        self.calls.set(idx, p);
        assert(partial_views(self.calls@) =~= fold_fragment(before, fv));
    }

    /// Feed one chunk (see `openai_step`); `fallback_id_base` names calls
    /// the stream gave no id.
    pub fn apply(&mut self, chunk: OpenAiChunk, fallback_id_base: &str) -> (out: Vec<ChatDelta>)
        ensures
            (partial_views(final(self).calls@), final(self).saw_tool_call, final(self).finish, delta_views(out@))
                == openai_step(
                partial_views(old(self).calls@),
                old(self).saw_tool_call,
                old(self).finish,
                chunk.usage,
                first_choice(chunk),
                fallback_id_base@,
            ),
    {
        let mut out: Vec<ChatDelta> = Vec::new();
        match chunk.usage {
            Some(u) => out.push(ChatDelta::Usage(u)),
            None => {},
        }
        assert(delta_views(out@) =~= match chunk.usage {
            Some(u) => seq![DeltaView::Usage(u)],
            None => Seq::<DeltaView>::empty(),
        });
        if chunk.choices.len() == 0 {
            return out;
        }
        let ghost fc = first_choice(chunk);
        let ch = &chunk.choices[0];
        match &ch.content {
            Some(t) => {
                let tc = to_chars(t.as_str());
                if tc.len() > 0 {
                    out.push(ChatDelta::Text(crate::text::own(t.as_str())));
                }
            },
            None => {},
        }
        let ghost out1 = delta_views(out@);
        let ghost fv = fragment_views(ch.tool_calls@);
        let ghost start = partial_views(self.calls@);
        let mut j: usize = 0;
        while j < ch.tool_calls.len()
            invariant
                j <= ch.tool_calls@.len(),
                fv == fragment_views(ch.tool_calls@),
                partial_views(self.calls@) == fold_fragments(start, fv.take(j as int)),
                self.saw_tool_call == (old(self).saw_tool_call || j > 0),
                self.finish == old(self).finish,
                delta_views(out@) == out1,
            decreases ch.tool_calls@.len() - j,
        {
            self.saw_tool_call = true;
            self.fold(&ch.tool_calls[j]);
            assert(fv.take(j + 1).drop_last() =~= fv.take(j as int));
            j = j + 1;
        }
        assert(fv.take(fv.len() as int) =~= fv);
        match &ch.finish_reason {
            None => {},
            Some(r) => {
                let ghost folded = partial_views(self.calls@);
                let mut calls: Vec<PartialCall> = Vec::new();
                std::mem::swap(&mut calls, &mut self.calls);
                let mut i: usize = 0;
                while i < calls.len()
                    invariant
                        i <= calls@.len(),
                        partial_views(calls@) == folded,
                        delta_views(out@) == out1 + flushed(folded, fallback_id_base@).take(i as int),
                    decreases calls@.len() - i,
                {
                    assert(folded[i as int] == calls@[i as int]@);
                    let id = match &calls[i].id {
                        Some(id) => crate::text::own(id.as_str()),
                        None => {
                            let mut v = to_chars(fallback_id_base);
                            v.push('_');
                            push_decimal(&mut v, i as u64);
                            assert(v@ =~= fallback_id_base@ + seq!['_'] + decimal(i as nat));
                            from_chars(v.as_slice())
                        },
                    };
                    let arguments = finish_arguments(calls[i].arguments.as_str());
                    let c = ToolCall { id, name: crate::text::own(calls[i].name.as_str()), arguments };
                    let ghost before = delta_views(out@);
                    out.push(ChatDelta::ToolCall(c));
                    assert(delta_views(out@) =~= before.push(
                        flushed(folded, fallback_id_base@)[i as int],
                    ));
                    assert(flushed(folded, fallback_id_base@).take(i + 1) =~= flushed(
                        folded,
                        fallback_id_base@,
                    ).take(i as int).push(flushed(folded, fallback_id_base@)[i as int]));
                    i = i + 1;
                }
                assert(flushed(folded, fallback_id_base@).take(calls@.len() as int) =~= flushed(
                    folded,
                    fallback_id_base@,
                ));
                self.finish = Some(reason_exec(r.as_str(), self.saw_tool_call));
                assert(partial_views(self.calls@) =~= Seq::<PartialView>::empty());
            },
        }
        out
    }
}

// ---------------------------------------------------------------------------
// Gemini chunks
// ---------------------------------------------------------------------------

/// A function call, whole; `args` is the arguments object as JSON text.
pub struct GeminiCall {
    pub name: String,
    pub args: String,
}

/// One content part: text, a function call, or both.
pub struct GeminiPart {
    pub text: Option<String>,
    pub function_call: Option<GeminiCall>,
}

pub struct GeminiCandidate {
    /// The parts of the candidate's content, when it has content.
    pub parts: Option<Vec<GeminiPart>>,
    pub finish_reason: Option<String>,
}

/// One parsed `streamGenerateContent` chunk.
pub struct GeminiChunk {
    pub candidates: Vec<GeminiCandidate>,
    pub usage: Option<Usage>,
}

/// Assembly state for Gemini streams. Calls arrive whole and get ids
/// `call_g_<n>` from a counter that the provider keeps across requests.
pub struct GeminiAssembler {
    pub next_call_id: u64,
    pub usage: Usage,
    pub saw_tool_call: bool,
    pub finish: Option<StopReason>,
}

/// The counter after one id is taken (it wraps like an atomic counter).
pub open spec fn bump(n: u64) -> u64 {
    if n == u64::MAX {
        0
    } else {
        (n + 1) as u64
    }
}

/// The deltas of a candidate's parts, with the counter and the tool-call
/// flag after them: non-empty text, then any function call with the next id.
pub open spec fn gemini_parts(parts: Seq<GeminiPart>, next: u64, saw: bool) -> (u64, bool, Seq<DeltaView>)
    decreases parts.len(),
{
    if parts.len() == 0 {
        (next, saw, Seq::empty())
    } else {
        let (n, s, out) = gemini_parts(parts.drop_last(), next, saw);
        let p = parts.last();
        let text = match p.text {
            Some(t) => if t@.len() > 0 {
                seq![DeltaView::Text(t@)]
            } else {
                Seq::empty()
            },
            None => Seq::empty(),
        };
        match p.function_call {
            Some(fc) => (
                bump(n),
                true,
                out + text + seq![
                    DeltaView::ToolCall(
                        ToolCallView { id: "call_g_"@ + decimal(n as nat), name: fc.name@, arguments: fc.args@ },
                    ),
                ],
            ),
            None => (n, s, out + text),
        }
    }
}

pub open spec fn gemini_reason(r: Seq<char>, saw: bool) -> StopReason {
    if r == "STOP"@ {
        if saw {
            StopReason::ToolUse
        } else {
            StopReason::EndTurn
        }
    } else if r == "MAX_TOKENS"@ {
        StopReason::MaxTokens
    } else {
        StopReason::Other
    }
}

/// What one chunk does: usage is recorded; the first candidate's parts go
/// out (see `gemini_parts`); its finish reason is recorded.
pub open spec fn gemini_step(a: GeminiAssembler, chunk: GeminiChunk) -> (u64, Usage, bool, Option<StopReason>, Seq<DeltaView>) {
    let usage = match chunk.usage {
        Some(u) => u,
        None => a.usage,
    };
    if chunk.candidates@.len() == 0 {
        (a.next_call_id, usage, a.saw_tool_call, a.finish, Seq::empty())
    } else {
        let c = chunk.candidates@[0];
        let (n, saw, out) = match c.parts {
            Some(ps) => gemini_parts(ps@, a.next_call_id, a.saw_tool_call),
            None => (a.next_call_id, a.saw_tool_call, Seq::empty()),
        };
        let finish = match c.finish_reason {
            Some(r) => Some(gemini_reason(r@, saw)),
            None => a.finish,
        };
        (n, usage, saw, finish, out)
    }
}

/// Whether a run of parts carries a call: the flag after them is the flag
/// before, or any part holding a function call.
pub proof fn lemma_gemini_parts_flag(parts: Seq<GeminiPart>, next: u64, saw: bool)
    ensures
        gemini_parts(parts, next, saw).1 == (saw || exists|i: int|
            0 <= i < parts.len() && (#[trigger] parts[i]).function_call is Some),
    decreases parts.len(),
{
    if parts.len() > 0 {
        lemma_gemini_parts_flag(parts.drop_last(), next, saw);
        let d = parts.drop_last();
        if exists|i: int| 0 <= i < d.len() && (#[trigger] d[i]).function_call is Some {
            let i = choose|i: int| 0 <= i < d.len() && (#[trigger] d[i]).function_call is Some;
            assert(parts[i] == d[i]);
        }
        if exists|i: int| 0 <= i < parts.len() && (#[trigger] parts[i]).function_call is Some {
            let i = choose|i: int| 0 <= i < parts.len() && (#[trigger] parts[i]).function_call is Some;
            if i < parts.len() - 1 {
                assert(d[i] == parts[i]);
            }
        }
    }
}

/// The stop reason a Gemini chunk records: `STOP` after a function call
/// (in this chunk's parts or an earlier chunk) means the model stopped to
/// use the tools, `STOP` with none ends the turn, and `MAX_TOKENS` hit the
/// token limit.
pub proof fn law_gemini_stop_after_call_is_tool_use(a: GeminiAssembler, chunk: GeminiChunk)
    requires
        chunk.candidates@.len() > 0,
        chunk.candidates@[0].finish_reason is Some,
    ensures
        ({
            let c = chunk.candidates@[0];
            let r = c.finish_reason.unwrap()@;
            let called = a.saw_tool_call || match c.parts {
                Some(ps) => exists|i: int|
                    0 <= i < ps@.len() && (#[trigger] ps@[i]).function_call is Some,
                None => false,
            };
            &&& gemini_step(a, chunk).2 == called
            &&& r == "STOP"@ && called ==> gemini_step(a, chunk).3 == Some(StopReason::ToolUse)
            &&& r == "STOP"@ && !called ==> gemini_step(a, chunk).3 == Some(StopReason::EndTurn)
            &&& r == "MAX_TOKENS"@ ==> gemini_step(a, chunk).3 == Some(StopReason::MaxTokens)
        }),
{
    reveal_strlit("STOP");
    reveal_strlit("MAX_TOKENS");
    assert("STOP"@.len() != "MAX_TOKENS"@.len());
    match chunk.candidates@[0].parts {
        Some(ps) => lemma_gemini_parts_flag(ps@, a.next_call_id, a.saw_tool_call),
        None => {},
    }
}

impl GeminiAssembler {
    pub fn new(next_call_id: u64) -> (a: GeminiAssembler)
        ensures
            a.next_call_id == next_call_id,
            a.usage == (Usage { prompt_tokens: 0, completion_tokens: 0 }),
            !a.saw_tool_call,
            a.finish is None,
    {
        GeminiAssembler {
            next_call_id,
            usage: Usage { prompt_tokens: 0, completion_tokens: 0 },
            saw_tool_call: false,
            finish: None,
        }
    }

    /// Feed one chunk (see `gemini_step`).
    pub fn apply(&mut self, chunk: GeminiChunk) -> (out: Vec<ChatDelta>)
        ensures
            (final(self).next_call_id, final(self).usage, final(self).saw_tool_call, final(self).finish, delta_views(out@))
                == gemini_step(*old(self), chunk),
    {
        let ghost a0 = *self;
        match chunk.usage {
            Some(u) => {
                self.usage = u;
            },
            None => {},
        }
        let mut out: Vec<ChatDelta> = Vec::new();
        if chunk.candidates.len() == 0 {
            assert(delta_views(out@) =~= Seq::<DeltaView>::empty());
            return out;
        }
        let c = &chunk.candidates[0];
        match &c.parts {
            Some(ps) => {
                let mut i: usize = 0;
                while i < ps.len()
                    invariant
                        i <= ps@.len(),
                        (self.next_call_id, self.saw_tool_call, delta_views(out@)) == gemini_parts(
                            ps@.take(i as int),
                            a0.next_call_id,
                            a0.saw_tool_call,
                        ),
                        self.finish == a0.finish,
                        self.usage == match chunk.usage {
                            Some(u) => u,
                            None => a0.usage,
                        },
                    decreases ps@.len() - i,
                {
                    assert(ps@.take(i + 1).drop_last() =~= ps@.take(i as int));
                    let p = &ps[i];
                    let ghost before = delta_views(out@);
                    match &p.text {
                        Some(t) => {
                            let tc = to_chars(t.as_str());
                            if tc.len() > 0 {
                                out.push(ChatDelta::Text(crate::text::own(t.as_str())));
                            }
                        },
                        None => {},
                    }
                    let ghost mid = delta_views(out@);
                    match &p.function_call {
                        Some(fc) => {
                            self.saw_tool_call = true;
                            let n = self.next_call_id;
                            self.next_call_id = if n == u64::MAX {
                                0
                            } else {
                                n + 1
                            };
                            let mut id = to_chars("call_g_");
                            push_decimal(&mut id, n);
                            let call = ToolCall {
                                id: from_chars(id.as_slice()),
                                name: crate::text::own(fc.name.as_str()),
                                arguments: crate::text::own(fc.args.as_str()),
                            };
                            out.push(ChatDelta::ToolCall(call));
                            assert(delta_views(out@) =~= mid.push(delta_views(out@).last()));
                        },
                        None => {},
                    }
                    assert(delta_views(out@) =~= before + (mid.skip(before.len() as int)) + delta_views(out@).skip(mid.len() as int));
                    i = i + 1;
                }
                assert(ps@.take(ps@.len() as int) =~= ps@);
            },
            None => {},
        }
        match &c.finish_reason {
            Some(r) => {
                let saw = self.saw_tool_call;
                self.finish = Some(
                    if str_eq(r.as_str(), "STOP") {
                        if saw {
                            StopReason::ToolUse
                        } else {
                            StopReason::EndTurn
                        }
                    } else if str_eq(r.as_str(), "MAX_TOKENS") {
                        StopReason::MaxTokens
                    } else {
                        StopReason::Other
                    },
                );
            },
            None => {},
        }
        out
    }
}

// ---------------------------------------------------------------------------
// Anthropic events
// ---------------------------------------------------------------------------

/// The block a `content_block_start` opens.
pub enum AnthropicBlock {
    Text(String),
    ToolUse { id: String, name: String },
    Thinking(String),
    Unknown,
}

/// The piece a `content_block_delta` carries.
pub enum AnthropicDelta {
    Text(String),
    InputJson(String),
    Thinking(String),
    Unknown,
}

/// One parsed Messages-API stream event.
pub enum AnthropicEvent {
    MessageStart { input_tokens: u64 },
    ContentBlockStart { index: usize, block: AnthropicBlock },
    ContentBlockDelta { index: usize, delta: AnthropicDelta },
    ContentBlockStop { index: usize },
    MessageDelta { stop_reason: Option<String>, output_tokens: Option<u64> },
    MessageStop,
    Ping,
    Error { kind: String, message: String },
    Unknown,
}

/// A `tool_use` block whose input JSON is still streaming.
pub struct ToolBlock {
    pub id: String,
    pub name: String,
    pub json: String,
}

pub struct BlockView {
    pub id: Seq<char>,
    pub name: Seq<char>,
    pub json: Seq<char>,
}

impl View for ToolBlock {
    type V = BlockView;

    open spec fn view(&self) -> BlockView {
        BlockView { id: self.id@, name: self.name@, json: self.json@ }
    }
}

pub open spec fn block_views(m: Map<usize, ToolBlock>) -> Map<usize, BlockView> {
    m.map_values(|b: ToolBlock| b@)
}

/// An error event ends the stream as an API error.
#[derive(Debug, Clone)]
pub struct ApiError {
    pub status: u16,
    pub message: String,
}

pub open spec fn anthropic_reason(r: Seq<char>) -> StopReason {
    if r == "end_turn"@ {
        StopReason::EndTurn
    } else if r == "tool_use"@ {
        StopReason::ToolUse
    } else if r == "max_tokens"@ {
        StopReason::MaxTokens
    } else {
        StopReason::Other
    }
}

/// Anthropic's stop reasons: `end_turn` ends the turn, `tool_use` stops
/// to use tools, `max_tokens` hit the token limit.
pub proof fn law_anthropic_reasons()
    ensures
        anthropic_reason("end_turn"@) == StopReason::EndTurn,
        anthropic_reason("tool_use"@) == StopReason::ToolUse,
        anthropic_reason("max_tokens"@) == StopReason::MaxTokens,
{
    reveal_strlit("end_turn");
    reveal_strlit("tool_use");
    reveal_strlit("max_tokens");
    assert("tool_use"@ != "end_turn"@) by {
        assert("tool_use"@[0] != "end_turn"@[0]);
    }
    assert("max_tokens"@.len() != "end_turn"@.len());
    assert("max_tokens"@.len() != "tool_use"@.len());
}

pub open spec fn nonempty_text(t: Seq<char>) -> Seq<DeltaView> {
    if t.len() > 0 {
        seq![DeltaView::Text(t)]
    } else {
        Seq::empty()
    }
}

pub open spec fn nonempty_thinking(t: Seq<char>) -> Seq<DeltaView> {
    if t.len() > 0 {
        seq![DeltaView::Thinking(t)]
    } else {
        Seq::empty()
    }
}

/// What one event does to (blocks, usage, pending stop) and what goes out:
/// a tool_use block is opened, its input pieces appended, and at its stop
/// the whole call goes out; text and thinking go out as they come;
/// `message_delta` records output tokens and the stop reason and reports
/// usage; `message_stop` ends with the recorded reason (`EndTurn` if none);
/// an error event is an API error with status 200.
pub open spec fn anthropic_step(
    blocks: Map<usize, BlockView>,
    usage: Usage,
    stop: Option<StopReason>,
    ev: AnthropicEvent,
) -> Result<(Map<usize, BlockView>, Usage, Option<StopReason>, Seq<DeltaView>), (u16, Seq<char>)> {
    match ev {
        AnthropicEvent::MessageStart { input_tokens } => Ok(
            (blocks, Usage { prompt_tokens: input_tokens, completion_tokens: usage.completion_tokens }, stop, Seq::empty()),
        ),
        AnthropicEvent::ContentBlockStart { index, block } => match block {
            AnthropicBlock::ToolUse { id, name } => Ok(
                (blocks.insert(index, BlockView { id: id@, name: name@, json: Seq::empty() }), usage, stop, Seq::empty()),
            ),
            AnthropicBlock::Text(t) => Ok((blocks, usage, stop, nonempty_text(t@))),
            AnthropicBlock::Thinking(t) => Ok((blocks, usage, stop, nonempty_thinking(t@))),
            AnthropicBlock::Unknown => Ok((blocks, usage, stop, Seq::empty())),
        },
        AnthropicEvent::ContentBlockDelta { index, delta } => match delta {
            AnthropicDelta::Text(t) => Ok((blocks, usage, stop, nonempty_text(t@))),
            AnthropicDelta::InputJson(p) => if blocks.contains_key(index) {
                let b = blocks[index];
                Ok((blocks.insert(index, BlockView { id: b.id, name: b.name, json: b.json + p@ }), usage, stop, Seq::empty()))
            } else {
                Ok((blocks, usage, stop, Seq::empty()))
            },
            AnthropicDelta::Thinking(t) => Ok((blocks, usage, stop, nonempty_thinking(t@))),
            AnthropicDelta::Unknown => Ok((blocks, usage, stop, Seq::empty())),
        },
        AnthropicEvent::ContentBlockStop { index } => if blocks.contains_key(index) {
            let b = blocks[index];
            Ok(
                (
                    blocks.remove(index),
                    usage,
                    stop,
                    seq![DeltaView::ToolCall(ToolCallView { id: b.id, name: b.name, arguments: args_value(b.json) })],
                ),
            )
        } else {
            Ok((blocks, usage, stop, Seq::empty()))
        },
        AnthropicEvent::MessageDelta { stop_reason, output_tokens } => {
            let u = match output_tokens {
                Some(n) => Usage { prompt_tokens: usage.prompt_tokens, completion_tokens: n },
                None => usage,
            };
            let s = match stop_reason {
                Some(r) => Some(anthropic_reason(r@)),
                None => stop,
            };
            Ok((blocks, u, s, seq![DeltaView::Usage(u)]))
        },
        AnthropicEvent::MessageStop => Ok(
            (
                blocks,
                usage,
                None,
                seq![
                    DeltaView::Done(
                        match stop {
                            Some(r) => r,
                            None => StopReason::EndTurn,
                        },
                    ),
                ],
            ),
        ),
        AnthropicEvent::Error { kind, message } => Err((200u16, kind@ + ": "@ + message@)),
        AnthropicEvent::Ping => Ok((blocks, usage, stop, Seq::empty())),
        AnthropicEvent::Unknown => Ok((blocks, usage, stop, Seq::empty())),
    }
}

/// Assembly state for Anthropic streams.
pub struct EventAssembler {
    pub tool_blocks: std::collections::HashMap<usize, ToolBlock>,
    pub usage: Usage,
    pub stop: Option<StopReason>,
}

impl EventAssembler {
    pub fn new() -> (a: EventAssembler)
        ensures
            block_views(a.tool_blocks@) == Map::<usize, BlockView>::empty(),
            a.usage == (Usage { prompt_tokens: 0, completion_tokens: 0 }),
            a.stop is None,
    {
        let a = EventAssembler {
            tool_blocks: std::collections::HashMap::new(),
            usage: Usage { prompt_tokens: 0, completion_tokens: 0 },
            stop: None,
        };
        assert(block_views(a.tool_blocks@) =~= Map::<usize, BlockView>::empty());
        a
    }

    /// Feed one event (see `anthropic_step`); on an error event nothing
    /// changes.
    pub fn apply(&mut self, event: AnthropicEvent) -> (r: Result<Vec<ChatDelta>, ApiError>)
        ensures
            match (r, anthropic_step(block_views(old(self).tool_blocks@), old(self).usage, old(self).stop, event)) {
                (Ok(out), Ok((b, u, s, d))) => block_views(final(self).tool_blocks@) == b && final(self).usage == u
                    && final(self).stop == s && delta_views(out@) == d,
                (Err(e), Err((status, message))) => e.status == status && e.message@ == message
                    && final(self).tool_blocks@ == old(self).tool_blocks@ && final(self).usage == old(self).usage
                    && final(self).stop == old(self).stop,
                _ => false,
            },
    {
        broadcast use vstd::std_specs::hash::group_hash_axioms;

        let ghost b0 = block_views(self.tool_blocks@);
        let mut out: Vec<ChatDelta> = Vec::new();
        match event {
            AnthropicEvent::MessageStart { input_tokens } => {
                self.usage = Usage { prompt_tokens: input_tokens, completion_tokens: self.usage.completion_tokens };
            },
            AnthropicEvent::ContentBlockStart { index, block } => match block {
                AnthropicBlock::ToolUse { id, name } => {
                    let b = ToolBlock { id, name, json: String::new() };
                    let ghost bv = b@;
                    self.tool_blocks.insert(index, b);
                    assert(block_views(self.tool_blocks@) =~= b0.insert(index, bv));
                },
                AnthropicBlock::Text(t) => {
                    let tc = to_chars(t.as_str());
                    if tc.len() > 0 {
                        out.push(ChatDelta::Text(t));
                    }
                },
                AnthropicBlock::Thinking(t) => {
                    let tc = to_chars(t.as_str());
                    if tc.len() > 0 {
                        out.push(ChatDelta::Thinking(t));
                    }
                },
                AnthropicBlock::Unknown => {},
            },
            AnthropicEvent::ContentBlockDelta { index, delta } => match delta {
                AnthropicDelta::Text(t) => {
                    let tc = to_chars(t.as_str());
                    if tc.len() > 0 {
                        out.push(ChatDelta::Text(t));
                    }
                },
                AnthropicDelta::InputJson(p) => {
                    match self.tool_blocks.remove(&index) {
                        Some(b) => {
                            let mut j = to_chars(b.json.as_str());
                            extend_str(&mut j, p.as_str());
                            let nb = ToolBlock { id: b.id, name: b.name, json: from_chars(j.as_slice()) };
                            let ghost nv = nb@;
                            self.tool_blocks.insert(index, nb);
                            assert(block_views(self.tool_blocks@) =~= b0.insert(index, nv));
                        },
                        None => {
                            assert(block_views(self.tool_blocks@) =~= b0);
                        },
                    }
                },
                AnthropicDelta::Thinking(t) => {
                    let tc = to_chars(t.as_str());
                    if tc.len() > 0 {
                        out.push(ChatDelta::Thinking(t));
                    }
                },
                AnthropicDelta::Unknown => {},
            },
            AnthropicEvent::ContentBlockStop { index } => {
                match self.tool_blocks.remove(&index) {
                    Some(b) => {
                        assert(block_views(self.tool_blocks@) =~= b0.remove(index));
                        let arguments = finish_arguments(b.json.as_str());
                        out.push(ChatDelta::ToolCall(ToolCall { id: b.id, name: b.name, arguments }));
                    },
                    None => {
                        assert(block_views(self.tool_blocks@) =~= b0);
                    },
                }
            },
            AnthropicEvent::MessageDelta { stop_reason, output_tokens } => {
                match output_tokens {
                    Some(n) => {
                        self.usage = Usage { prompt_tokens: self.usage.prompt_tokens, completion_tokens: n };
                    },
                    None => {},
                }
                match stop_reason {
                    Some(r) => {
                        self.stop = Some(
                            if str_eq(r.as_str(), "end_turn") {
                                StopReason::EndTurn
                            } else if str_eq(r.as_str(), "tool_use") {
                                StopReason::ToolUse
                            } else if str_eq(r.as_str(), "max_tokens") {
                                StopReason::MaxTokens
                            } else {
                                StopReason::Other
                            },
                        );
                    },
                    None => {},
                }
                out.push(ChatDelta::Usage(self.usage));
            },
            AnthropicEvent::MessageStop => {
                let r = match self.stop {
                    Some(r) => r,
                    None => StopReason::EndTurn,
                };
                self.stop = None;
                out.push(ChatDelta::Done(r));
            },
            AnthropicEvent::Error { kind, message } => {
                let mut m = to_chars(kind.as_str());
                extend_str(&mut m, ": ");
                extend_str(&mut m, message.as_str());
                return Err(ApiError { status: 200, message: from_chars(m.as_slice()) });
            },
            AnthropicEvent::Ping => {},
            AnthropicEvent::Unknown => {},
        }
        Ok(out)
    }
}

// ---------------------------------------------------------------------------
// Ollama: NDJSON lines
// ---------------------------------------------------------------------------

/// Take the first complete line (up to and without its `\n`) off the
/// buffer; `None`, leaving the buffer as it is, while no `\n` has arrived.
pub fn take_line(buf: &mut Vec<u8>) -> (r: Option<Vec<u8>>)
    ensures
        match r {
            Some(line) => exists|nl: int|
                0 <= nl < old(buf)@.len() && old(buf)@[nl] == 10 && (forall|j: int| 0 <= j < nl ==> old(buf)@[j] != 10)
                    && line@ == old(buf)@.take(nl) && final(buf)@ == old(buf)@.skip(nl + 1),
            None => final(buf)@ == old(buf)@ && forall|j: int| 0 <= j < old(buf)@.len() ==> old(buf)@[j] != 10,
        },
{
    let n = buf.len();
    let mut i: usize = 0;
    while i < n && buf[i] != 10
        invariant
            i <= n == buf@.len(),
            buf@ == old(buf)@,
            forall|j: int| 0 <= j < i ==> buf@[j] != 10,
        decreases n - i,
    {
        i = i + 1;
    }
    if i == n {
        return None;
    }
    let mut line: Vec<u8> = Vec::new();
    let mut k: usize = 0;
    while k < i
        invariant
            k <= i < n == buf@.len(),
            buf@ == old(buf)@,
            line@ == buf@.take(k as int),
        decreases i - k,
    {
        line.push(buf[k]);
        assert(buf@.take(k + 1) =~= buf@.take(k as int).push(buf@[k as int]));
        k = k + 1;
    }
    let mut rest: Vec<u8> = Vec::new();
    let mut m: usize = i + 1;
    while m < n
        invariant
            i + 1 <= m <= n == buf@.len(),
            buf@ == old(buf)@,
            rest@ == buf@.subrange(i + 1, m as int),
        decreases n - m,
    {
        rest.push(buf[m]);
        assert(buf@.subrange(i + 1, m + 1) =~= buf@.subrange(i + 1, m as int).push(buf@[m as int]));
        m = m + 1;
    }
    assert(buf@.subrange(i + 1, n as int) =~= buf@.skip(i + 1));
    *buf = rest;
    Some(line)
}

/// One call in an Ollama chunk; `arguments` is JSON text.
pub struct OllamaCall {
    pub name: String,
    pub arguments: String,
}

/// The message part of an Ollama chunk.
pub struct OllamaMessage {
    pub content: String,
    /// Reasoning from a thinking model; shown, never kept in the history.
    pub thinking: Option<String>,
    pub tool_calls: Vec<OllamaCall>,
}

/// One NDJSON line of an Ollama `/api/chat` stream.
pub struct OllamaChunk {
    pub message: Option<OllamaMessage>,
    pub done: bool,
    pub done_reason: Option<String>,
    pub prompt_eval_count: Option<u64>,
    pub eval_count: Option<u64>,
    pub error: Option<String>,
}

/// Assembly state for an Ollama stream: calls get ids `<base>_<n>`.
pub struct OllamaAssembler {
    pub call_seq: u64,
    pub usage: Usage,
    pub saw_tool_call: bool,
}

/// The deltas of a chunk's calls, with the counter after them.
pub open spec fn ollama_calls(calls: Seq<OllamaCall>, base: Seq<char>, seq0: u64) -> (u64, Seq<DeltaView>)
    decreases calls.len(),
{
    if calls.len() == 0 {
        (seq0, Seq::empty())
    } else {
        let (n, out) = ollama_calls(calls.drop_last(), base, seq0);
        let c = calls.last();
        (
            bump(n),
            out.push(
                DeltaView::ToolCall(
                    ToolCallView { id: base + "_"@ + decimal(n as nat), name: c.name@, arguments: c.arguments@ },
                ),
            ),
        )
    }
}

pub open spec fn ollama_reason(reason: Option<Seq<char>>, saw: bool) -> StopReason {
    if saw {
        StopReason::ToolUse
    } else {
        match reason {
            None => StopReason::EndTurn,
            Some(r) => if r == "stop"@ {
                StopReason::EndTurn
            } else if r == "length"@ {
                StopReason::MaxTokens
            } else {
                StopReason::Other
            },
        }
    }
}

/// What one chunk does: an error field fails the stream (as an API error
/// with status 200); otherwise non-empty thinking, then non-empty text,
/// then each call with the next id; and when the chunk ends the reply, the
/// usage and the stop reason (a reply that called tools stops for them).
pub open spec fn ollama_step(seq0: u64, usage: Usage, saw: bool, c: OllamaChunk, base: Seq<char>) -> Result<(u64, Usage, bool, Seq<DeltaView>), Seq<char>> {
    match c.error {
        Some(e) => Err(e@),
        None => {
            let (n, saw1, out1) = match c.message {
                Some(m) => {
                    let think = match m.thinking {
                        Some(t) => if t@.len() > 0 {
                            seq![DeltaView::Thinking(t@)]
                        } else {
                            Seq::empty()
                        },
                        None => Seq::empty(),
                    };
                    let text = if m.content@.len() > 0 {
                        seq![DeltaView::Text(m.content@)]
                    } else {
                        Seq::empty()
                    };
                    let (n, calls) = ollama_calls(m.tool_calls@, base, seq0);
                    (n, saw || m.tool_calls@.len() > 0, think + text + calls)
                },
                None => (seq0, saw, Seq::empty()),
            };
            if c.done {
                let u = Usage {
                    prompt_tokens: match c.prompt_eval_count {
                        Some(p) => p,
                        None => usage.prompt_tokens,
                    },
                    completion_tokens: match c.eval_count {
                        Some(e) => e,
                        None => usage.completion_tokens,
                    },
                };
                Ok(
                    (
                        n,
                        u,
                        saw1,
                        out1 + seq![
                            DeltaView::Usage(u),
                            DeltaView::Done(ollama_reason(crate::model::opt_view(c.done_reason), saw1)),
                        ],
                    ),
                )
            } else {
                Ok((n, usage, saw1, out1))
            }
        },
    }
}

impl OllamaAssembler {
    pub fn new() -> (a: OllamaAssembler)
        ensures
            a.call_seq == 0,
            a.usage == (Usage { prompt_tokens: 0, completion_tokens: 0 }),
            !a.saw_tool_call,
    {
        OllamaAssembler { call_seq: 0, usage: Usage { prompt_tokens: 0, completion_tokens: 0 }, saw_tool_call: false }
    }

    /// Feed one parsed line (see `ollama_step`); on an error nothing
    /// changes.
    pub fn apply(&mut self, chunk: OllamaChunk, base: &str) -> (r: Result<Vec<ChatDelta>, ApiError>)
        ensures
            match (r, ollama_step(old(self).call_seq, old(self).usage, old(self).saw_tool_call, chunk, base@)) {
                (Ok(out), Ok((n, u, s, d))) => final(self).call_seq == n && final(self).usage == u
                    && final(self).saw_tool_call == s && delta_views(out@) == d,
                (Err(e), Err(m)) => e.status == 200 && e.message@ == m && final(self).call_seq == old(self).call_seq
                    && final(self).usage == old(self).usage && final(self).saw_tool_call == old(self).saw_tool_call,
                _ => false,
            },
    {
        let ghost c0 = chunk;
        match chunk.error {
            Some(e) => {
                return Err(ApiError { status: 200, message: e });
            },
            None => {},
        }
        let mut out: Vec<ChatDelta> = Vec::new();
        let mut saw = self.saw_tool_call;
        match chunk.message {
            Some(m) => {
                let ghost mv = m;
                match m.thinking {
                    Some(t) => {
                        if !t.as_str().is_empty() {
                            out.push(ChatDelta::Thinking(t));
                        }
                    },
                    None => {},
                }
                if !m.content.as_str().is_empty() {
                    let ghost before = out@;
                    out.push(ChatDelta::Text(m.content));
                    assert(delta_views(out@) =~= delta_views(before).push(DeltaView::Text(mv.content@)));
                }
                let ghost head = delta_views(out@);
                assert(head =~= (match mv.thinking {
                    Some(t) => if t@.len() > 0 {
                        seq![DeltaView::Thinking(t@)]
                    } else {
                        Seq::empty()
                    },
                    None => Seq::empty(),
                }) + (if mv.content@.len() > 0 {
                    seq![DeltaView::Text(mv.content@)]
                } else {
                    Seq::empty()
                }));
                let calls = m.tool_calls;
                let seq0 = self.call_seq;
                let mut n = seq0;
                let mut i: usize = 0;
                assert(calls@.take(0) =~= Seq::<OllamaCall>::empty());
                while i < calls.len()
                    invariant
                        i <= calls@.len(),
                        calls@ == mv.tool_calls@,
                        (n, delta_views(out@).skip(head.len() as int)) == ollama_calls(calls@.take(i as int), base@, seq0),
                        delta_views(out@).take(head.len() as int) == head,
                        delta_views(out@).len() >= head.len(),
                    decreases calls@.len() - i,
                {
                    let ghost before = delta_views(out@);
                    let mut id: Vec<char> = to_chars(base);
                    id.push('_');
                    push_decimal(&mut id, n);
                    proof {
                        reveal_strlit("_");
                    }
                    assert(id@ =~= base@ + "_"@ + decimal(n as nat));
                    let c = &calls[i];
                    out.push(
                        ChatDelta::ToolCall(
                            ToolCall { id: from_chars(id.as_slice()), name: c.name.clone(), arguments: c.arguments.clone() },
                        ),
                    );
                    proof {
                        reveal_strlit("_");
                        assert(calls@.take(i + 1).drop_last() =~= calls@.take(i as int));
                        assert(calls@.take(i + 1).last() == calls@[i as int]);
                        assert(delta_views(out@).last() == DeltaView::ToolCall(
                            ToolCallView {
                                id: base@ + "_"@ + decimal(n as nat),
                                name: calls@[i as int].name@,
                                arguments: calls@[i as int].arguments@,
                            },
                        ));
                        assert(delta_views(out@) =~= before.push(delta_views(out@).last()));
                        assert(delta_views(out@).skip(head.len() as int) =~= before.skip(head.len() as int).push(
                            delta_views(out@).last(),
                        ));
                        assert(delta_views(out@).take(head.len() as int) =~= before.take(head.len() as int));
                    }
                    n = if n == u64::MAX {
                        0
                    } else {
                        n + 1
                    };
                    i = i + 1;
                }
                assert(calls@.take(calls@.len() as int) =~= calls@);
                assert(delta_views(out@) =~= head + delta_views(out@).skip(head.len() as int));
                if calls.len() > 0 {
                    saw = true;
                }
                self.call_seq = n;
            },
            None => {},
        }
        self.saw_tool_call = saw;
        if chunk.done {
            match chunk.prompt_eval_count {
                Some(p) => {
                    self.usage.prompt_tokens = p;
                },
                None => {},
            }
            match chunk.eval_count {
                Some(e) => {
                    self.usage.completion_tokens = e;
                },
                None => {},
            }
            out.push(ChatDelta::Usage(self.usage));
            let stop = if saw {
                StopReason::ToolUse
            } else {
                match &chunk.done_reason {
                    None => StopReason::EndTurn,
                    Some(r) => {
                        if crate::text::str_eq(r.as_str(), "stop") {
                            StopReason::EndTurn
                        } else if crate::text::str_eq(r.as_str(), "length") {
                            StopReason::MaxTokens
                        } else {
                            StopReason::Other
                        }
                    },
                }
            };
            out.push(ChatDelta::Done(stop));
        }
        Ok(out)
    }
}

} // verus!
