//! Context budgeting and compaction. The operative ceiling is the configured
//! `num_ctx`, not the model's advertised maximum.
use vstd::prelude::*;

use crate::model::{Message, MessageView, Role, ToolSchema, copy_messages, msg_views, plain};
use crate::text::{
    byte_len, byte_prefix_len, decimal, extend, extend_str, from_chars, is_byte_prefix_len,
    lines, lines_exec, push_decimal, str_len, to_chars, trim, trim_exec, views,
};
use crate::tokens::{estimate, estimate_messages, schema_views};

verus! {

/// Reserved for the model's own output within num_ctx.
pub const OUTPUT_RESERVE: usize = 4096;

/// Per-message cap (bytes) for the summarizer's transcript input.
pub const TRANSCRIPT_MSG_CAP: usize = 1500;

/// Total cap (bytes) for the summarizer's transcript input.
pub const TRANSCRIPT_MAX_BYTES: usize = 48000;

/// How many trailing turns survive compaction verbatim.
pub const KEEP_LAST_TURNS: usize = 2;

/// Every prune stub starts with this; also the idempotency check.
pub const PRUNE_STUB_PREFIX: &'static str = "[pruned tool result";

/// Tool results at or under this size are never pruned.
pub const PRUNE_MIN_BYTES: usize = 200;

/// Cap (bytes) on the first line quoted in a prune stub.
pub const STUB_HEAD_CAP: usize = 80;

#[derive(Debug, Clone, Copy, PartialEq, Eq, Structural)]
pub enum ContextPlan {
    Fits,
    /// 60–80% of budget: summarize old turns in the background.
    NearBudget,
    NeedsCompaction,
}

pub struct ContextManager {
    pub num_ctx: usize,
    /// Tool results older than this many user turns get stubbed (0 = off).
    pub keep_tool_turns: usize,
}

/// Positions of the user messages in `m`, in order.
pub open spec fn user_positions(m: Seq<MessageView>) -> Seq<int>
    decreases m.len(),
{
    if m.len() == 0 {
        Seq::empty()
    } else {
        let p = user_positions(m.drop_last());
        if m.last().role == Role::User {
            p.push(m.len() - 1)
        } else {
            p
        }
    }
}

pub open spec fn keep_turns_for(keep: nat) -> nat {
    if keep == 0 {
        0
    } else if keep < KEEP_LAST_TURNS {
        KEEP_LAST_TURNS as nat
    } else {
        keep
    }
}

/// Where the last `keep` user turns start, if there are more than `keep`.
pub open spec fn turn_cut(m: Seq<MessageView>, keep: nat) -> Option<int> {
    let u = user_positions(m);
    if u.len() <= keep {
        None
    } else {
        Some(u[u.len() - keep])
    }
}

/// The usage bands of the context ladder, as exact integer comparisons:
/// compaction at 80% of the usable budget, background summarizing at 60%.
pub open spec fn plan_for(estimate: nat, budget: nat) -> ContextPlan {
    if 5 * estimate >= 4 * budget {
        ContextPlan::NeedsCompaction
    } else if 5 * estimate >= 3 * budget {
        ContextPlan::NearBudget
    } else {
        ContextPlan::Fits
    }
}

proof fn lemma_user_positions(m: Seq<MessageView>)
    ensures
        forall|k: int| 0 <= k < user_positions(m).len() ==> 0 <= #[trigger] user_positions(m)[k] < m.len()
            && m[user_positions(m)[k]].role == Role::User,
        forall|k: int, l: int|
            0 <= k < l < user_positions(m).len() ==> #[trigger] user_positions(m)[k]
                < #[trigger] user_positions(m)[l],
    decreases m.len(),
{
    if m.len() > 0 {
        lemma_user_positions(m.drop_last());
    }
}

/// Positions of the user messages in `messages`.
fn user_positions_exec(messages: &[Message]) -> (r: Vec<usize>)
    ensures
        r@.len() == user_positions(msg_views(messages@)).len(),
        forall|k: int| 0 <= k < r@.len() ==> r@[k] as int == #[trigger] user_positions(msg_views(messages@))[k],
{
    let ghost mv = msg_views(messages@);
    let mut r: Vec<usize> = Vec::new();
    let mut i: usize = 0;
    while i < messages.len()
        invariant
            i <= messages@.len(),
            mv == msg_views(messages@),
            r@.len() == user_positions(mv.take(i as int)).len(),
            forall|k: int| 0 <= k < r@.len() ==> r@[k] as int == #[trigger] user_positions(mv.take(i as int))[k],
        decreases messages@.len() - i,
    {
        assert(mv.take(i + 1).drop_last() =~= mv.take(i as int));
        if messages[i].role == Role::User {
            r.push(i);
        }
        i = i + 1;
    }
    assert(mv.take(messages@.len() as int) =~= mv);
    r
}

impl ContextManager {
    /// A manager for `num_ctx` tokens; `keep_tool_turns` of 0 turns pruning
    /// off, and any other value is raised to at least the compaction tail.
    pub fn new(num_ctx: u32, keep_tool_turns: u32) -> (cm: ContextManager)
        ensures
            cm.num_ctx == num_ctx,
            cm.keep_tool_turns == keep_turns_for(keep_tool_turns as nat),
    {
        let keep = keep_tool_turns as usize;
        let keep = if keep == 0 {
            0
        } else if keep < KEEP_LAST_TURNS {
            KEEP_LAST_TURNS
        } else {
            keep
        };
        ContextManager { num_ctx: num_ctx as usize, keep_tool_turns: keep }
    }

    pub open spec fn budget(&self) -> nat {
        if self.num_ctx >= OUTPUT_RESERVE {
            (self.num_ctx - OUTPUT_RESERVE) as nat
        } else {
            0
        }
    }

    /// Tokens usable for the prompt: `num_ctx` minus the output reserve.
    pub fn usable_budget(&self) -> (b: usize)
        ensures
            b == self.budget(),
    {
        self.num_ctx.saturating_sub(OUTPUT_RESERVE)
    }

    /// Where the estimated size of the request stands on the ladder.
    pub fn plan(&self, messages: &[Message], tools: &[ToolSchema]) -> (p: ContextPlan)
        requires
            estimate(msg_views(messages@), schema_views(tools@)) <= usize::MAX,
        ensures
            p == plan_for(estimate(msg_views(messages@), schema_views(tools@)), self.budget()),
    {
        let e = estimate_messages(messages, tools) as u128;
        let b = self.usable_budget() as u128;
        if 5 * e >= 4 * b {
            ContextPlan::NeedsCompaction
        } else if 5 * e >= 3 * b {
            ContextPlan::NearBudget
        } else {
            ContextPlan::Fits
        }
    }

    /// Whether to run a prune pass now: pruning is on and the estimate has
    /// reached 35% of the usable budget.
    pub fn should_prune(&self, messages: &[Message], tools: &[ToolSchema]) -> (r: bool)
        requires
            estimate(msg_views(messages@), schema_views(tools@)) <= usize::MAX,
        ensures
            r == (self.keep_tool_turns != 0 && 20 * estimate(
                msg_views(messages@),
                schema_views(tools@),
            ) >= 7 * self.budget()),
    {
        if self.keep_tool_turns == 0 {
            return false;
        }
        let e = estimate_messages(messages, tools) as u128;
        let b = self.usable_budget() as u128;
        20 * e >= 7 * b
    }

    /// Index before which tool results are prunable: the start of the last
    /// `keep_tool_turns` user turns. None when pruning is off or there are
    /// no more user turns than that.
    pub fn prune_cut(&self, messages: &[Message]) -> (r: Option<usize>)
        ensures
            self.keep_tool_turns == 0 ==> r is None,
            self.keep_tool_turns != 0 ==> match r {
                Some(c) => turn_cut(msg_views(messages@), self.keep_tool_turns as nat) == Some(
                    c as int,
                ),
                None => turn_cut(msg_views(messages@), self.keep_tool_turns as nat) is None,
            },
    {
        if self.keep_tool_turns == 0 {
            return None;
        }
        let u = user_positions_exec(messages);
        if u.len() <= self.keep_tool_turns {
            return None;
        }
        Some(u[u.len() - self.keep_tool_turns])
    }

    /// Split into (system, to_summarize, keep_verbatim): the first message
    /// must be the system prompt, and the kept part starts at the last
    /// `KEEP_LAST_TURNS` user turns of the rest. None when the rest has no
    /// more user turns than that.
    pub fn split_for_compaction<'a>(&self, messages: &'a [Message]) -> (r: Option<
        (&'a Message, &'a [Message], &'a [Message]),
    >)
        ensures
            match r {
                Some((s, old, kept)) => {
                    let mv = msg_views(messages@);
                    &&& messages@.len() > 0
                    &&& mv[0].role == Role::System
                    &&& *s == messages@[0]
                    &&& turn_cut(mv.drop_first(), KEEP_LAST_TURNS as nat) is Some
                    &&& old@ == messages@.subrange(
                        1,
                        1 + turn_cut(mv.drop_first(), KEEP_LAST_TURNS as nat).unwrap(),
                    )
                    &&& kept@ == messages@.subrange(
                        1 + turn_cut(mv.drop_first(), KEEP_LAST_TURNS as nat).unwrap(),
                        messages@.len() as int,
                    )
                },
                None => messages@.len() == 0 || messages@[0].role != Role::System || turn_cut(
                    msg_views(messages@).drop_first(),
                    KEEP_LAST_TURNS as nat,
                ) is None,
            },
    {
        if messages.len() == 0 || messages[0].role != Role::System {
            return None;
        }
        let (head, rest) = messages.split_at(1);
        let system = &head[0];
        assert(msg_views(rest@) =~= msg_views(messages@).drop_first());
        let u = user_positions_exec(rest);
        if u.len() <= KEEP_LAST_TURNS {
            return None;
        }
        let cut = u[u.len() - KEEP_LAST_TURNS];
        proof {
            lemma_user_positions(msg_views(rest@));
        }
        let (old, kept) = rest.split_at(cut);
        assert(old@ =~= messages@.subrange(1, 1 + cut));
        assert(kept@ =~= messages@.subrange(1 + cut, messages@.len() as int));
        Some((system, old, kept))
    }
}

/// `h` cut to at most `cap` bytes on a character boundary, with `…`
/// appended when anything was cut.
pub open spec fn cap_with_ellipsis(h: Seq<char>, cap: nat) -> Seq<char> {
    if byte_len(h) > cap {
        h.take((choose|k: nat| is_byte_prefix_len(h, cap, k)) as int).push('…')
    } else {
        h
    }
}

/// First line of `content`, trimmed, or empty.
pub open spec fn first_line(content: Seq<char>) -> Seq<char> {
    if lines(content).len() > 0 {
        trim(lines(content)[0])
    } else {
        Seq::empty()
    }
}

/// The one-line stub that replaces an old tool result.
pub open spec fn prune_stub_text(name: Seq<char>, content: Seq<char>) -> Seq<char> {
    PRUNE_STUB_PREFIX@ + ": "@ + name + " — "@ + decimal(lines(content).len()) + " lines / "@
        + decimal(byte_len(content)) + " bytes — first line: \""@ + cap_with_ellipsis(
        first_line(content),
        STUB_HEAD_CAP as nat,
    ) + "\" — full output in session log; re-run the tool if you need it]"@
}

pub open spec fn opt_str_view(o: Option<&str>) -> Option<Seq<char>> {
    match o {
        Some(s) => Some(s@),
        None => None,
    }
}

/// `h` capped at `cap` bytes, `…` appended when cut.
pub fn cap_with_ellipsis_exec(h: &[char], cap: usize) -> (r: Vec<char>)
    ensures
        r@ == cap_with_ellipsis(h@, cap as nat),
{
    let k = byte_prefix_len(h, cap);
    if k < h.len() {
        proof {
            crate::text::lemma_byte_len_take_mono(h@, k + 1, h@.len() as int);
            assert(h@.take(h@.len() as int) =~= h@);
            let c = choose|k: nat| is_byte_prefix_len(h@, cap as nat, k);
            crate::text::lemma_byte_prefix_len_unique(h@, cap as nat, c, k as nat);
        }
        let mut r = crate::text::slice_to_vec(h, 0, k);
        r.push('…');
        assert(h@.subrange(0, k as int) =~= h@.take(k as int));
        r
    } else {
        assert(h@.take(h@.len() as int) =~= h@);
        crate::text::slice_to_vec(h, 0, h.len())
    }
}

impl ContextManager {
    /// One-line replacement for an old tool result: tool name, line and byte
    /// counts, and the (capped) first line.
    pub fn prune_stub(tool_name: Option<&str>, content: &str) -> (r: String)
        ensures
            r@ == prune_stub_text(
                match tool_name {
                    Some(n) => n@,
                    None => "tool"@,
                },
                content@,
            ),
    {
        let (chars, bytes) = crate::text::chars_and_len(content);
        let ls = lines_exec(chars.as_slice());
        let head: Vec<char> = if ls.len() > 0 {
            trim_exec(ls[0].as_slice())
        } else {
            Vec::new()
        };
        let head = cap_with_ellipsis_exec(head.as_slice(), STUB_HEAD_CAP);
        let mut out: Vec<char> = Vec::new();
        extend_str(&mut out, PRUNE_STUB_PREFIX);
        extend_str(&mut out, ": ");
        match tool_name {
            Some(n) => extend_str(&mut out, n),
            None => extend_str(&mut out, "tool"),
        }
        extend_str(&mut out, " — ");
        push_decimal(&mut out, ls.len() as u64);
        extend_str(&mut out, " lines / ");
        push_decimal(&mut out, bytes as u64);
        extend_str(&mut out, " bytes — first line: \"");
        extend(&mut out, head.as_slice());
        extend_str(&mut out, "\" — full output in session log; re-run the tool if you need it]");
        from_chars(out.as_slice())
    }
}

/// `{:?}` of a role.
pub open spec fn role_name(r: Role) -> Seq<char> {
    match r {
        Role::System => "System"@,
        Role::User => "User"@,
        Role::Assistant => "Assistant"@,
        Role::Tool => "Tool"@,
    }
}

pub fn push_role_name(v: &mut Vec<char>, r: Role)
    ensures
        final(v)@ == old(v)@ + role_name(r),
{
    match r {
        Role::System => extend_str(v, "System"),
        Role::User => extend_str(v, "User"),
        Role::Assistant => extend_str(v, "Assistant"),
        Role::Tool => extend_str(v, "Tool"),
    }
}

/// One transcript line for the summarizer: role tag and content capped at
/// `TRANSCRIPT_MSG_CAP` bytes.
pub open spec fn transcript_line(m: MessageView) -> Seq<char> {
    "["@ + role_name(m.role) + "] "@ + cap_with_ellipsis(m.content, TRANSCRIPT_MSG_CAP as nat)
        + "\n"@
}

pub open spec fn transcript_lines(old: Seq<MessageView>) -> Seq<Seq<char>> {
    old.map_values(|m: MessageView| transcript_line(m))
}

/// The pieces of `p` one after another.
pub open spec fn concat(p: Seq<Seq<char>>) -> Seq<char>
    decreases p.len(),
{
    if p.len() == 0 {
        Seq::empty()
    } else {
        concat(p.drop_last()) + p.last()
    }
}

/// Total bytes of the pieces of `p`.
pub open spec fn pieces_bytes(p: Seq<Seq<char>>) -> nat
    decreases p.len(),
{
    if p.len() == 0 {
        0
    } else {
        pieces_bytes(p.drop_last()) + byte_len(p.last())
    }
}

/// `d` is how many leading lines the transcript drops: the fewest such
/// that the rest fits in `TRANSCRIPT_MAX_BYTES` (or all of them).
pub open spec fn is_drop_count(p: Seq<Seq<char>>, d: nat) -> bool {
    &&& d <= p.len()
    &&& (d == p.len() || pieces_bytes(p.skip(d as int)) <= TRANSCRIPT_MAX_BYTES)
    &&& forall|e: nat| e < d ==> pieces_bytes(#[trigger] p.skip(e as int)) > TRANSCRIPT_MAX_BYTES
}

/// The summarizer's transcript of `old`.
pub open spec fn summary_transcript(old: Seq<MessageView>) -> Seq<char> {
    let p = transcript_lines(old);
    let d = choose|d: nat| is_drop_count(p, d);
    (if d > 0 {
        "[earliest "@ + decimal(d) + " messages omitted]\n"@
    } else {
        Seq::empty()
    }) + concat(p.skip(d as int))
}

proof fn lemma_pieces_bytes_split(p: Seq<Seq<char>>, d: int)
    requires
        0 <= d < p.len(),
    ensures
        pieces_bytes(p.skip(d)) == byte_len(p[d]) + pieces_bytes(p.skip(d + 1)),
    decreases p.len(),
{
    if d == p.len() - 1 {
        assert(p.skip(d).drop_last() =~= Seq::<Seq<char>>::empty());
        assert(p.skip(d + 1) =~= Seq::<Seq<char>>::empty());
    } else {
        lemma_pieces_bytes_split(p.drop_last(), d);
        assert(p.skip(d).drop_last() =~= p.drop_last().skip(d));
        assert(p.skip(d + 1).drop_last() =~= p.drop_last().skip(d + 1));
    }
}

proof fn lemma_drop_count_unique(p: Seq<Seq<char>>, a: nat, b: nat)
    requires
        is_drop_count(p, a),
        is_drop_count(p, b),
    ensures
        a == b,
{
    if a < b {
        assert(pieces_bytes(p.skip(a as int)) > TRANSCRIPT_MAX_BYTES);
    } else if b < a {
        assert(pieces_bytes(p.skip(b as int)) > TRANSCRIPT_MAX_BYTES);
    }
}

fn transcript_line_exec(m: &Message) -> (r: Vec<char>)
    ensures
        r@ == transcript_line(m@),
{
    let mut v: Vec<char> = Vec::new();
    extend_str(&mut v, "[");
    push_role_name(&mut v, m.role);
    extend_str(&mut v, "] ");
    let c = to_chars(m.content.as_str());
    let capped = cap_with_ellipsis_exec(c.as_slice(), TRANSCRIPT_MSG_CAP);
    extend(&mut v, capped.as_slice());
    extend_str(&mut v, "\n");
    v
}

/// The transcript lines of `old` and their byte sizes.
fn render_lines(old: &[Message]) -> (r: (Vec<Vec<char>>, Vec<usize>))
    ensures
        views(r.0@) == transcript_lines(msg_views(old@)),
        r.1@.len() == old@.len(),
        forall|k: int|
            0 <= k < old@.len() ==> r.1@[k] as nat == byte_len(
                #[trigger] transcript_lines(msg_views(old@))[k],
            ),
{
    let ghost p = transcript_lines(msg_views(old@));
    let mut rendered: Vec<Vec<char>> = Vec::new();
    let mut sizes: Vec<usize> = Vec::new();
    let mut i: usize = 0;
    while i < old.len()
        invariant
            i <= old@.len(),
            p == transcript_lines(msg_views(old@)),
            views(rendered@) =~= p.take(i as int),
            sizes@.len() == i,
            forall|k: int| 0 <= k < i ==> sizes@[k] as nat == byte_len(#[trigger] p[k]),
        decreases old@.len() - i,
    {
        let line = transcript_line_exec(&old[i]);
        let s = from_chars(line.as_slice());
        let n = str_len(s.as_str());
        let ghost before = rendered@;
        rendered.push(line);
        sizes.push(n);
        assert(views(rendered@) =~= views(before).push(p[i as int]));
        i = i + 1;
    }
    assert(views(rendered@) =~= p);
    (rendered, sizes)
}

/// How many leading lines to drop so the rest fits.
fn drop_count(sizes: &Vec<usize>, Ghost(p): Ghost<Seq<Seq<char>>>) -> (d: usize)
    requires
        sizes@.len() == p.len(),
        forall|k: int| 0 <= k < p.len() ==> sizes@[k] as nat == byte_len(#[trigger] p[k]),
    ensures
        is_drop_count(p, d as nat),
{
    let mut total: u128 = 0;
    let mut j: usize = sizes.len();
    while j > 0
        invariant
            j <= p.len(),
            p.len() <= usize::MAX,
            sizes@.len() == p.len(),
            forall|k: int| 0 <= k < p.len() ==> sizes@[k] as nat == byte_len(#[trigger] p[k]),
            total == pieces_bytes(p.skip(j as int)),
            total <= (p.len() - j) * 0x1_0000_0000_0000_0000,
        decreases j,
    {
        proof {
            lemma_pieces_bytes_split(p, j - 1);
        }
        total = total + sizes[j - 1] as u128;
        j = j - 1;
    }
    let mut dropped: usize = 0;
    while total > TRANSCRIPT_MAX_BYTES as u128 && dropped < sizes.len()
        invariant
            dropped <= p.len(),
            sizes@.len() == p.len(),
            forall|k: int| 0 <= k < p.len() ==> sizes@[k] as nat == byte_len(#[trigger] p[k]),
            total == pieces_bytes(p.skip(dropped as int)),
            forall|e: nat| e < dropped ==> pieces_bytes(#[trigger] p.skip(e as int))
                > TRANSCRIPT_MAX_BYTES,
        decreases p.len() - dropped,
    {
        proof {
            lemma_pieces_bytes_split(p, dropped as int);
        }
        total = total - sizes[dropped] as u128;
        dropped = dropped + 1;
    }
    dropped
}

impl ContextManager {
    /// Transcript for the summarizer, bounded so its own prompt fits: each
    /// message capped at `TRANSCRIPT_MSG_CAP` bytes, then the oldest lines
    /// dropped whole until the rest fits in `TRANSCRIPT_MAX_BYTES`, with a
    /// note saying how many were dropped.
    pub fn render_summary_transcript(old: &[Message]) -> (r: String)
        ensures
            r@ == summary_transcript(msg_views(old@)),
    {
        let ghost p = transcript_lines(msg_views(old@));
        let (rendered, sizes) = render_lines(old);
        let dropped = drop_count(&sizes, Ghost(p));
        proof {
            let d = choose|d: nat| is_drop_count(p, d);
            lemma_drop_count_unique(p, d, dropped as nat);
        }
        let mut out: Vec<char> = Vec::new();
        if dropped > 0 {
            extend_str(&mut out, "[earliest ");
            push_decimal(&mut out, dropped as u64);
            extend_str(&mut out, " messages omitted]\n");
        }
        let ghost header = out@;
        let mut k = dropped;
        while k < rendered.len()
            invariant
                dropped <= k <= rendered@.len(),
                views(rendered@) == p,
                out@ == header + concat(p.subrange(dropped as int, k as int)),
            decreases rendered@.len() - k,
        {
            assert(p.subrange(dropped as int, k + 1).drop_last() =~= p.subrange(
                dropped as int,
                k as int,
            ));
            extend(&mut out, rendered[k].as_slice());
            k = k + 1;
        }
        assert(p.subrange(dropped as int, p.len() as int) =~= p.skip(dropped as int));
        from_chars(out.as_slice())
    }

    /// Rigid template for the summarizer call.
    pub fn summarize_prompt(original_goal: &str, transcript: &str) -> (r: String)
        ensures
            r@ == SUMMARIZE_HEAD@ + original_goal@ + "\n\nTRANSCRIPT:\n"@ + transcript@
                + SUMMARIZE_TAIL@,
    {
        let mut v: Vec<char> = Vec::new();
        extend_str(&mut v, SUMMARIZE_HEAD);
        extend_str(&mut v, original_goal);
        extend_str(&mut v, "\n\nTRANSCRIPT:\n");
        extend_str(&mut v, transcript);
        extend_str(&mut v, SUMMARIZE_TAIL);
        from_chars(v.as_slice())
    }

    /// The message list after summarization: system prompt, the summary
    /// as a user message, a fixed acknowledgement, then the kept messages.
    pub fn rebuild(system: &Message, original_goal: &str, summary: &str, kept: &[Message]) -> (r:
        Vec<Message>)
        ensures
            msg_views(r@) == seq![
                system@,
                plain(Role::User, REBUILD_HEAD@ + original_goal@ + REBUILD_MID@ + summary@),
                plain(Role::Assistant, REBUILD_ACK@),
            ] + msg_views(kept@),
    {
        let mut out: Vec<Message> = Vec::new();
        out.push(system.copy());
        let mut v: Vec<char> = Vec::new();
        extend_str(&mut v, REBUILD_HEAD);
        extend_str(&mut v, original_goal);
        extend_str(&mut v, REBUILD_MID);
        extend_str(&mut v, summary);
        let text = from_chars(v.as_slice());
        out.push(Message::user(text.as_str()));
        out.push(Message::assistant(REBUILD_ACK));
        let ghost first = out@;
        crate::model::extend_messages(&mut out, kept);
        assert(msg_views(first) =~= seq![
            system@,
            plain(Role::User, REBUILD_HEAD@ + original_goal@ + REBUILD_MID@ + summary@),
            plain(Role::Assistant, REBUILD_ACK@),
        ]);
        out
    }
}

pub const SUMMARIZE_HEAD: &'static str = "Summarize this coding-session transcript so the session can continue from the summary alone. Fill in every section. Keep exact file paths, command lines, and error messages verbatim — never paraphrase an identifier. Do NOT reproduce tool output bodies (file contents, command output, diffs); extract only the conclusion each output led to. Drop dead ends and abandoned explorations unless they produced a constraint worth remembering.\n\nORIGINAL GOAL:\n";

pub const SUMMARIZE_TAIL: &'static str = "\n\nRespond in exactly this format:\nFILES TOUCHED: <paths and what changed in each>\nDECISIONS: <choices made and why>\nCONSTRAINTS & GOTCHAS: <requirements, invariants, environment limits, sharp edges hit>\nSTATE: <what currently works / fails, with the latest evidence>\nOPEN ITEMS: <what remains to be done, in order>";

pub const REBUILD_HEAD: &'static str = "[Conversation compacted. Original goal: ";

pub const REBUILD_MID: &'static str = "]\n\n[Summary of earlier work:]\n";

pub const REBUILD_ACK: &'static str = "Understood. Continuing from the summarized state.";

} // verus!
