//! Request bodies for the model providers, as JSON text. A conversation
//! becomes each provider's wire form: the Anthropic and Gemini forms move
//! system prompts to their own field and merge consecutive turns of one
//! role, OpenAI-compatible and Ollama endpoints take the messages one by
//! one. Sampling numbers arrive as JSON number text. The finished body is
//! written out by `serde_json` (keys sorted, compact) when it parses.
use vstd::prelude::*;

use crate::json::{canonical_json, json_canon, json_entries, json_entries_of, json_items, json_items_of, json_kind, json_kind_of, json_quoted, quote_json, JsonKind};
use crate::model::{call_views, msg_views, Effort, Message, MessageView, Role, ToolCallView, ToolSchema};
use crate::ollama::{think_value, wire_think, ThinkWire};
use crate::text::{decimal, extend, extend_str, from_chars, join, join_exec, push_decimal, str_eq, to_chars, views};

verus! {

/// Generation parameters as the wire needs them. `temperature` and `top_p`
/// are JSON number text.
pub struct WireParams {
    pub temperature: Option<String>,
    pub top_p: Option<String>,
    pub top_k: Option<u32>,
    pub max_tokens: Option<u32>,
    /// Context window to allocate (Ollama only).
    pub num_ctx: Option<u32>,
    /// How long the model stays loaded (Ollama only).
    pub keep_alive: Option<String>,
    /// Extended thinking requested.
    pub think: Option<bool>,
    /// The reasoning effort tier.
    pub effort: Effort,
}

// ---------------------------------------------------------------------------
// JSON text
// ---------------------------------------------------------------------------

/// `"key":value`.
pub open spec fn entry(key: Seq<char>, value: Seq<char>) -> Seq<char> {
    seq!['"'] + key + seq!['"', ':'] + value
}

/// `{e1,e2,...}`.
pub open spec fn obj(entries: Seq<Seq<char>>) -> Seq<char> {
    seq!['{'] + join(entries, seq![',']) + seq!['}']
}

/// `[i1,i2,...]`.
pub open spec fn arr(items: Seq<Seq<char>>) -> Seq<char> {
    seq!['['] + join(items, seq![',']) + seq![']']
}

/// The body as `serde_json` writes it (keys sorted, compact), when the
/// text is JSON; the text itself otherwise.
pub open spec fn canonical_or(t: Seq<char>) -> Seq<char> {
    match json_canon(t) {
        Some(c) => c,
        None => t,
    }
}

fn canonical_or_exec(t: String) -> (r: String)
    ensures
        r@ == canonical_or(t@),
{
    match canonical_json(t.as_str()) {
        Some(c) => c,
        None => t,
    }
}

fn entry_exec(key: &str, value: &[char]) -> (r: Vec<char>)
    ensures
        r@ == entry(key@, value@),
{
    let mut v: Vec<char> = vec!['"'];
    extend_str(&mut v, key);
    v.push('"');
    v.push(':');
    extend(&mut v, value);
    assert(v@ =~= entry(key@, value@));
    v
}

fn wrap_exec(open: char, parts: &Vec<Vec<char>>, close: char) -> (r: Vec<char>)
    ensures
        r@ == seq![open] + join(views(parts@), seq![',']) + seq![close],
{
    let comma = vec![','];
    assert(comma@ =~= seq![',']);
    let body = join_exec(parts.as_slice(), comma.as_slice());
    let mut v: Vec<char> = vec![open];
    extend(&mut v, body.as_slice());
    v.push(close);
    assert(v@ =~= seq![open] + join(views(parts@), seq![',']) + seq![close]);
    v
}

fn obj_exec(entries: &Vec<Vec<char>>) -> (r: Vec<char>)
    ensures
        r@ == obj(views(entries@)),
{
    wrap_exec('{', entries, '}')
}

fn arr_exec(items: &Vec<Vec<char>>) -> (r: Vec<char>)
    ensures
        r@ == arr(views(items@)),
{
    wrap_exec('[', items, ']')
}

fn quoted(s: &str) -> (r: Vec<char>)
    ensures
        r@ == json_quoted(s@),
{
    to_chars(quote_json(s).as_str())
}

fn push_part(v: &mut Vec<Vec<char>>, p: Vec<char>)
    ensures
        views(final(v)@) == views(old(v)@).push(p@),
{
    let ghost before = v@;
    v.push(p);
    assert(views(v@) =~= views(before).push(p@));
}

fn lit(s: &str) -> (r: Vec<char>)
    ensures
        r@ == s@,
{
    to_chars(s)
}

// ---------------------------------------------------------------------------
// Turns: system prompt and merged same-role turns
// ---------------------------------------------------------------------------

/// System prompts joined by blank lines (an empty prompt adds nothing
/// before the first one that is not empty).
pub open spec fn add_system(sys: Seq<char>, content: Seq<char>) -> Seq<char> {
    if sys.len() == 0 {
        content
    } else {
        sys + "\n\n"@ + content
    }
}

/// A turn: its role's wire name and its blocks (JSON text).
pub type TurnText = (Seq<char>, Seq<Seq<char>>);

/// Add one message's blocks: none adds nothing; the same role as the last
/// turn extends it; another role starts a turn.
pub open spec fn merge_turn(t: Seq<TurnText>, role: Seq<char>, blocks: Seq<Seq<char>>) -> Seq<TurnText> {
    if blocks.len() == 0 {
        t
    } else if t.len() > 0 && t.last().0 == role {
        t.update(t.len() - 1, (role, t.last().1 + blocks))
    } else {
        t.push((role, blocks))
    }
}

pub open spec fn turn_views(t: Seq<(String, Vec<Vec<char>>)>) -> Seq<TurnText> {
    t.map_values(|x: (String, Vec<Vec<char>>)| (x.0@, views(x.1@)))
}

fn merge_turn_exec(t: &mut Vec<(String, Vec<Vec<char>>)>, role: &str, blocks: Vec<Vec<char>>)
    ensures
        turn_views(final(t)@) == merge_turn(turn_views(old(t)@), role@, views(blocks@)),
{
    if blocks.len() == 0 {
        return;
    }
    let n = t.len();
    if n > 0 && crate::text::str_eq(t[n - 1].0.as_str(), role) {
        let (r, mut existing) = t.pop().unwrap();
        let ghost e0 = views(existing@);
        let mut i: usize = 0;
        while i < blocks.len()
            invariant
                i <= blocks@.len(),
                views(existing@) =~= e0 + views(blocks@).take(i as int),
            decreases blocks@.len() - i,
        {
            let ghost before = existing@;
            existing.push(blocks[i].clone());
            assert(views(existing@) =~= views(before).push(blocks@[i as int]@));
            i = i + 1;
        }
        assert(views(blocks@).take(blocks@.len() as int) =~= views(blocks@));
        let ghost before = t@;
        t.push((r, existing));
        assert(turn_views(t@) =~= turn_views(old(t)@).update(n - 1, (role@, turn_views(old(t)@).last().1 + views(blocks@))));
    } else {
        let ghost before = t@;
        t.push((role.to_string(), blocks));
        assert(turn_views(t@) =~= turn_views(before).push((role@, views(blocks@))));
    }
}

fn add_system_exec(sys: &mut Vec<char>, content: &str)
    ensures
        final(sys)@ == add_system(old(sys)@, content@),
{
    if sys.len() > 0 {
        extend_str(sys, "\n\n");
    }
    extend_str(sys, content);
}

// ---------------------------------------------------------------------------
// Anthropic
// ---------------------------------------------------------------------------

pub open spec fn text_block(c: Seq<char>) -> Seq<char> {
    obj(seq![entry("type"@, "\"text\""@), entry("text"@, json_quoted(c))])
}

pub open spec fn tool_use_block(c: ToolCallView) -> Seq<char> {
    obj(
        seq![
            entry("type"@, "\"tool_use\""@),
            entry("id"@, json_quoted(c.id)),
            entry("name"@, json_quoted(c.name)),
            entry("input"@, c.arguments),
        ],
    )
}

pub open spec fn tool_use_blocks(c: Seq<ToolCallView>) -> Seq<Seq<char>> {
    c.map_values(|x: ToolCallView| tool_use_block(x))
}

/// The call id a tool result answers (empty when missing).
pub open spec fn call_id_text(m: MessageView) -> Seq<char> {
    match m.tool_call_id {
        Some(id) => id,
        None => Seq::empty(),
    }
}

pub open spec fn tool_result_block(m: MessageView) -> Seq<char> {
    obj(
        seq![
            entry("type"@, "\"tool_result\""@),
            entry("tool_use_id"@, json_quoted(call_id_text(m))),
            entry("content"@, json_quoted(m.content)),
        ],
    )
}

/// The role and blocks of a non-system message.
pub open spec fn anthropic_item(m: MessageView) -> TurnText {
    match m.role {
        Role::Assistant => (
            "assistant"@,
            (if m.content.len() > 0 {
                seq![text_block(m.content)]
            } else {
                Seq::empty()
            }) + tool_use_blocks(m.tool_calls),
        ),
        Role::Tool => ("user"@, seq![tool_result_block(m)]),
        _ => ("user"@, seq![text_block(m.content)]),
    }
}

/// The system prompt and turns of a conversation on the Anthropic wire.
pub open spec fn anthropic_turns(ms: Seq<MessageView>) -> (Seq<char>, Seq<TurnText>)
    decreases ms.len(),
{
    if ms.len() == 0 {
        (Seq::empty(), Seq::empty())
    } else {
        let (sys, t) = anthropic_turns(ms.drop_last());
        let m = ms.last();
        if m.role == Role::System {
            (add_system(sys, m.content), t)
        } else {
            (sys, merge_turn(t, anthropic_item(m).0, anthropic_item(m).1))
        }
    }
}

pub open spec fn turn_object(t: TurnText, parts_key: Seq<char>) -> Seq<char> {
    obj(seq![entry("role"@, json_quoted(t.0)), entry(parts_key, arr(t.1))])
}

pub open spec fn turn_objects(t: Seq<TurnText>, parts_key: Seq<char>) -> Seq<Seq<char>> {
    t.map_values(|x: TurnText| turn_object(x, parts_key))
}

pub open spec fn thinking(p: WireParams) -> bool {
    p.think == Some(true)
}

/// `max_tokens`: 8192 unless set; with thinking at least 16384, so the
/// 8192-token thinking budget leaves room for the answer.
pub open spec fn anthropic_max_tokens(p: WireParams) -> nat {
    let asked: nat = match p.max_tokens {
        Some(n) => n as nat,
        None => 8192,
    };
    if thinking(p) && asked < 16384 {
        16384
    } else {
        asked
    }
}

pub open spec fn anthropic_tool(t: ToolSchema) -> Seq<char> {
    obj(
        seq![
            entry("name"@, json_quoted(t.name@)),
            entry("description"@, json_quoted(t.description@)),
            entry("input_schema"@, t.parameters@),
        ],
    )
}

pub open spec fn opt_entry(key: Seq<char>, v: Option<String>) -> Seq<Seq<char>> {
    match v {
        Some(x) => seq![entry(key, x@)],
        None => Seq::empty(),
    }
}

pub open spec fn opt_num_entry(key: Seq<char>, v: Option<u32>) -> Seq<Seq<char>> {
    match v {
        Some(x) => seq![entry(key, decimal(x as nat))],
        None => Seq::empty(),
    }
}

/// The entries of an Anthropic request body, in order: model, max_tokens,
/// messages, stream; thinking when requested; the system prompt when there
/// is one; the tools when there are any; and, without thinking (the API
/// refuses them with it), the sampling overrides that are set.
pub open spec fn anthropic_entries(model: Seq<char>, ms: Seq<MessageView>, tools: Seq<ToolSchema>, p: WireParams) -> Seq<Seq<char>> {
    let (sys, turns) = anthropic_turns(ms);
    seq![
        entry("model"@, json_quoted(model)),
        entry("max_tokens"@, decimal(anthropic_max_tokens(p))),
        entry("messages"@, arr(turn_objects(turns, "content"@))),
        entry("stream"@, "true"@),
    ] + (if thinking(p) {
        seq![entry("thinking"@, obj(seq![entry("type"@, "\"enabled\""@), entry("budget_tokens"@, "8192"@)]))]
    } else {
        Seq::empty()
    }) + (if sys.len() > 0 {
        seq![entry("system"@, json_quoted(sys))]
    } else {
        Seq::empty()
    }) + (if tools.len() > 0 {
        seq![entry("tools"@, arr(tools.map_values(|t: ToolSchema| anthropic_tool(t))))]
    } else {
        Seq::empty()
    }) + (if !thinking(p) {
        opt_entry("temperature"@, p.temperature) + opt_entry("top_p"@, p.top_p) + opt_num_entry(
            "top_k"@,
            p.top_k,
        )
    } else {
        Seq::empty()
    })
}

fn text_block_exec(c: &str) -> (r: Vec<char>)
    ensures
        r@ == text_block(c@),
{
    let mut es: Vec<Vec<char>> = Vec::new();
    push_part(&mut es, entry_exec("type", lit("\"text\"").as_slice()));
    push_part(&mut es, entry_exec("text", quoted(c).as_slice()));
    assert(views(es@) =~= seq![entry("type"@, "\"text\""@), entry("text"@, json_quoted(c@))]);
    obj_exec(&es)
}

fn anthropic_item_exec(m: &Message) -> (r: (String, Vec<Vec<char>>))
    requires
        m.role != Role::System,
    ensures
        (r.0@, views(r.1@)) == anthropic_item(m@),
{
    match m.role {
        Role::Assistant => {
            let mut blocks: Vec<Vec<char>> = Vec::new();
            if !m.content.as_str().is_empty() {
                push_part(&mut blocks, text_block_exec(m.content.as_str()));
            }
            let ghost head = views(blocks@);
            assert(head =~= (if m@.content.len() > 0 {
                seq![text_block(m@.content)]
            } else {
                Seq::empty()
            }));
            let ghost cv = call_views(m.tool_calls@);
            let mut i: usize = 0;
            while i < m.tool_calls.len()
                invariant
                    i <= m.tool_calls@.len(),
                    cv == call_views(m.tool_calls@),
                    views(blocks@) =~= head + tool_use_blocks(cv.take(i as int)),
                decreases m.tool_calls@.len() - i,
            {
                let c = &m.tool_calls[i];
                let mut es: Vec<Vec<char>> = Vec::new();
                push_part(&mut es, entry_exec("type", lit("\"tool_use\"").as_slice()));
                push_part(&mut es, entry_exec("id", quoted(c.id.as_str()).as_slice()));
                push_part(&mut es, entry_exec("name", quoted(c.name.as_str()).as_slice()));
                push_part(&mut es, entry_exec("input", to_chars(c.arguments.as_str()).as_slice()));
                assert(views(es@) =~= seq![
                    entry("type"@, "\"tool_use\""@),
                    entry("id"@, json_quoted(c.id@)),
                    entry("name"@, json_quoted(c.name@)),
                    entry("input"@, c.arguments@),
                ]);
                assert(cv[i as int] == c@);
                push_part(&mut blocks, obj_exec(&es));
                assert(tool_use_blocks(cv.take(i + 1)) =~= tool_use_blocks(cv.take(i as int)).push(
                    tool_use_block(cv[i as int]),
                ));
                i = i + 1;
            }
            assert(cv.take(m.tool_calls@.len() as int) =~= cv);
            ("assistant".to_string(), blocks)
        },
        Role::Tool => {
            let id: &str = match &m.tool_call_id {
                Some(id) => id.as_str(),
                None => "",
            };
            proof {
                reveal_strlit("");
            }
            let ghost idv = call_id_text(m@);
            assert(id@ == idv);
            let mut es: Vec<Vec<char>> = Vec::new();
            push_part(&mut es, entry_exec("type", lit("\"tool_result\"").as_slice()));
            push_part(&mut es, entry_exec("tool_use_id", quoted(id).as_slice()));
            push_part(&mut es, entry_exec("content", quoted(m.content.as_str()).as_slice()));
            assert(views(es@) =~= seq![
                entry("type"@, "\"tool_result\""@),
                entry("tool_use_id"@, json_quoted(idv)),
                entry("content"@, json_quoted(m@.content)),
            ]);
            let mut blocks: Vec<Vec<char>> = Vec::new();
            let o = obj_exec(&es);
            assert(m@.role == Role::Tool);
            assert(o@ == tool_result_block(m@));
            push_part(&mut blocks, o);
            assert(views(blocks@) =~= anthropic_item(m@).1);
            ("user".to_string(), blocks)
        },
        _ => {
            let mut blocks: Vec<Vec<char>> = Vec::new();
            push_part(&mut blocks, text_block_exec(m.content.as_str()));
            assert(views(blocks@) =~= anthropic_item(m@).1);
            ("user".to_string(), blocks)
        },
    }
}

fn turn_objects_exec(t: &Vec<(String, Vec<Vec<char>>)>, parts_key: &str) -> (r: Vec<Vec<char>>)
    ensures
        views(r@) == turn_objects(turn_views(t@), parts_key@),
{
    let ghost tv = turn_views(t@);
    let mut out: Vec<Vec<char>> = Vec::new();
    let mut i: usize = 0;
    while i < t.len()
        invariant
            i <= t@.len(),
            tv == turn_views(t@),
            views(out@) =~= turn_objects(tv.take(i as int), parts_key@),
        decreases t@.len() - i,
    {
        let mut es: Vec<Vec<char>> = Vec::new();
        push_part(&mut es, entry_exec("role", quoted(t[i].0.as_str()).as_slice()));
        push_part(&mut es, entry_exec(parts_key, arr_exec(&t[i].1).as_slice()));
        assert(views(es@) =~= seq![entry("role"@, json_quoted(tv[i as int].0)), entry(parts_key@, arr(tv[i as int].1))]);
        push_part(&mut out, obj_exec(&es));
        assert(turn_objects(tv.take(i + 1), parts_key@) =~= turn_objects(tv.take(i as int), parts_key@).push(
            turn_object(tv[i as int], parts_key@),
        ));
        i = i + 1;
    }
    assert(tv.take(t@.len() as int) =~= tv);
    out
}

fn push_num(v: &mut Vec<Vec<char>>, key: &str, n: Option<u32>)
    ensures
        views(final(v)@) == views(old(v)@) + opt_num_entry(key@, n),
{
    match n {
        Some(x) => {
            let mut d: Vec<char> = Vec::new();
            push_decimal(&mut d, x as u64);
            assert(d@ =~= decimal(x as nat));
            push_part(v, entry_exec(key, d.as_slice()));
        },
        None => {
            assert(views(v@) =~= views(v@) + Seq::<Seq<char>>::empty());
        },
    }
}

fn push_opt(v: &mut Vec<Vec<char>>, key: &str, x: &Option<String>)
    ensures
        views(final(v)@) == views(old(v)@) + opt_entry(key@, *x),
{
    match x {
        Some(s) => {
            push_part(v, entry_exec(key, to_chars(s.as_str()).as_slice()));
        },
        None => {
            assert(views(v@) =~= views(v@) + Seq::<Seq<char>>::empty());
        },
    }
}

/// The Anthropic Messages request body (see `anthropic_entries`).
pub fn anthropic_body(model: &str, messages: &Vec<Message>, tools: &Vec<ToolSchema>, params: &WireParams) -> (r: String)
    ensures
        r@ == canonical_or(obj(anthropic_entries(model@, msg_views(messages@), tools@, *params))),
{
    let ghost mv = msg_views(messages@);
    let mut sys: Vec<char> = Vec::new();
    let mut turns: Vec<(String, Vec<Vec<char>>)> = Vec::new();
    let mut i: usize = 0;
    while i < messages.len()
        invariant
            i <= messages@.len(),
            mv == msg_views(messages@),
            (sys@, turn_views(turns@)) == anthropic_turns(mv.take(i as int)),
        decreases messages@.len() - i,
    {
        proof {
            assert(mv.take(i + 1).drop_last() =~= mv.take(i as int));
            assert(mv.take(i + 1).last() == messages@[i as int]@);
        }
        let m = &messages[i];
        if m.role == Role::System {
            add_system_exec(&mut sys, m.content.as_str());
        } else {
            let (role, blocks) = anthropic_item_exec(m);
            merge_turn_exec(&mut turns, role.as_str(), blocks);
        }
        i = i + 1;
    }
    assert(mv.take(messages@.len() as int) =~= mv);
    let think = match params.think {
        Some(true) => true,
        _ => false,
    };
    let asked: u32 = match params.max_tokens {
        Some(n) => n,
        None => 8192,
    };
    let max_tokens: u32 = if think && asked < 16384 {
        16384
    } else {
        asked
    };
    let mut es: Vec<Vec<char>> = Vec::new();
    push_part(&mut es, entry_exec("model", quoted(model).as_slice()));
    let mut d: Vec<char> = Vec::new();
    push_decimal(&mut d, max_tokens as u64);
    push_part(&mut es, entry_exec("max_tokens", d.as_slice()));
    let tobj = turn_objects_exec(&turns, "content");
    push_part(&mut es, entry_exec("messages", arr_exec(&tobj).as_slice()));
    push_part(&mut es, entry_exec("stream", lit("true").as_slice()));
    let ghost base = views(es@);
    if think {
        let mut t: Vec<Vec<char>> = Vec::new();
        push_part(&mut t, entry_exec("type", lit("\"enabled\"").as_slice()));
        push_part(&mut t, entry_exec("budget_tokens", lit("8192").as_slice()));
        assert(views(t@) =~= seq![entry("type"@, "\"enabled\""@), entry("budget_tokens"@, "8192"@)]);
        push_part(&mut es, entry_exec("thinking", obj_exec(&t).as_slice()));
    }
    let ghost after_think = views(es@);
    if sys.len() > 0 {
        let s = from_chars(sys.as_slice());
        push_part(&mut es, entry_exec("system", quoted(s.as_str()).as_slice()));
    }
    let ghost after_sys = views(es@);
    if tools.len() > 0 {
        let mut items: Vec<Vec<char>> = Vec::new();
        let ghost ts = tools@.map_values(|t: ToolSchema| anthropic_tool(t));
        let mut k: usize = 0;
        while k < tools.len()
            invariant
                k <= tools@.len(),
                ts == tools@.map_values(|t: ToolSchema| anthropic_tool(t)),
                views(items@) =~= ts.take(k as int),
            decreases tools@.len() - k,
        {
            let t = &tools[k];
            let mut te: Vec<Vec<char>> = Vec::new();
            push_part(&mut te, entry_exec("name", quoted(t.name.as_str()).as_slice()));
            push_part(&mut te, entry_exec("description", quoted(t.description.as_str()).as_slice()));
            push_part(&mut te, entry_exec("input_schema", to_chars(t.parameters.as_str()).as_slice()));
            assert(views(te@) =~= seq![
                entry("name"@, json_quoted(t.name@)),
                entry("description"@, json_quoted(t.description@)),
                entry("input_schema"@, t.parameters@),
            ]);
            push_part(&mut items, obj_exec(&te));
            assert(ts.take(k + 1) =~= ts.take(k as int).push(ts[k as int]));
            k = k + 1;
        }
        assert(ts.take(tools@.len() as int) =~= ts);
        push_part(&mut es, entry_exec("tools", arr_exec(&items).as_slice()));
    }
    let ghost after_tools = views(es@);
    if !think {
        push_opt(&mut es, "temperature", &params.temperature);
        push_opt(&mut es, "top_p", &params.top_p);
        push_num(&mut es, "top_k", params.top_k);
    }
    proof {
        let (s, t) = anthropic_turns(mv);
        assert(s == sys@);
        let e = anthropic_entries(model@, mv, tools@, *params);
        assert(views(es@) =~= e);
    }
    let body = obj_exec(&es);
    canonical_or_exec(from_chars(body.as_slice()))
}

// ---------------------------------------------------------------------------
// OpenAI-compatible
// ---------------------------------------------------------------------------

pub open spec fn role_text(r: Role) -> Seq<char> {
    match r {
        Role::System => "system"@,
        Role::User => "user"@,
        Role::Assistant => "assistant"@,
        Role::Tool => "tool"@,
    }
}

pub open spec fn openai_call(c: ToolCallView) -> Seq<char> {
    obj(
        seq![
            entry("id"@, json_quoted(c.id)),
            entry("type"@, "\"function\""@),
            entry(
                "function"@,
                obj(seq![entry("name"@, json_quoted(c.name)), entry("arguments"@, json_quoted(c.arguments))]),
            ),
        ],
    )
}

/// One message on the OpenAI wire: an assistant message with calls and no
/// text has `content: null`; calls carry their arguments as a JSON string.
pub open spec fn openai_message(m: MessageView) -> Seq<char> {
    match m.role {
        Role::Assistant => obj(
            seq![
                entry("role"@, "\"assistant\""@),
                entry(
                    "content"@,
                    if m.content.len() == 0 && m.tool_calls.len() > 0 {
                        "null"@
                    } else {
                        json_quoted(m.content)
                    },
                ),
            ] + (if m.tool_calls.len() > 0 {
                seq![entry("tool_calls"@, arr(m.tool_calls.map_values(|c: ToolCallView| openai_call(c))))]
            } else {
                Seq::empty()
            }),
        ),
        Role::Tool => obj(
            seq![
                entry("role"@, "\"tool\""@),
                entry("tool_call_id"@, json_quoted(call_id_text(m))),
                entry("content"@, json_quoted(m.content)),
            ],
        ),
        _ => obj(seq![entry("role"@, json_quoted(role_text(m.role))), entry("content"@, json_quoted(m.content))]),
    }
}

pub open spec fn function_tool(t: ToolSchema) -> Seq<char> {
    obj(
        seq![
            entry("type"@, "\"function\""@),
            entry(
                "function"@,
                obj(
                    seq![
                        entry("name"@, json_quoted(t.name@)),
                        entry("description"@, json_quoted(t.description@)),
                        entry("parameters"@, t.parameters@),
                    ],
                ),
            ),
        ],
    )
}

/// The entries of an OpenAI-compatible chat-completions body: model,
/// messages, streaming with usage; the tools when there are any; the
/// sampling and length settings that are set.
pub open spec fn openai_entries(model: Seq<char>, ms: Seq<MessageView>, tools: Seq<ToolSchema>, p: WireParams) -> Seq<Seq<char>> {
    seq![
        entry("model"@, json_quoted(model)),
        entry("messages"@, arr(ms.map_values(|m: MessageView| openai_message(m)))),
        entry("stream"@, "true"@),
        entry("stream_options"@, obj(seq![entry("include_usage"@, "true"@)])),
    ] + (if tools.len() > 0 {
        seq![entry("tools"@, arr(tools.map_values(|t: ToolSchema| function_tool(t))))]
    } else {
        Seq::empty()
    }) + opt_entry("temperature"@, p.temperature) + opt_entry("top_p"@, p.top_p) + opt_num_entry(
        "max_tokens"@,
        p.max_tokens,
    )
}

fn function_tools_exec(tools: &Vec<ToolSchema>) -> (r: Vec<char>)
    ensures
        r@ == arr(tools@.map_values(|t: ToolSchema| function_tool(t))),
{
    let ghost ts = tools@.map_values(|t: ToolSchema| function_tool(t));
    let mut items: Vec<Vec<char>> = Vec::new();
    let mut k: usize = 0;
    while k < tools.len()
        invariant
            k <= tools@.len(),
            ts == tools@.map_values(|t: ToolSchema| function_tool(t)),
            views(items@) =~= ts.take(k as int),
        decreases tools@.len() - k,
    {
        let t = &tools[k];
        let mut fe: Vec<Vec<char>> = Vec::new();
        push_part(&mut fe, entry_exec("name", quoted(t.name.as_str()).as_slice()));
        push_part(&mut fe, entry_exec("description", quoted(t.description.as_str()).as_slice()));
        push_part(&mut fe, entry_exec("parameters", to_chars(t.parameters.as_str()).as_slice()));
        assert(views(fe@) =~= seq![
            entry("name"@, json_quoted(t.name@)),
            entry("description"@, json_quoted(t.description@)),
            entry("parameters"@, t.parameters@),
        ]);
        let mut te: Vec<Vec<char>> = Vec::new();
        push_part(&mut te, entry_exec("type", lit("\"function\"").as_slice()));
        push_part(&mut te, entry_exec("function", obj_exec(&fe).as_slice()));
        assert(views(te@) =~= seq![
            entry("type"@, "\"function\""@),
            entry(
                "function"@,
                obj(
                    seq![
                        entry("name"@, json_quoted(t.name@)),
                        entry("description"@, json_quoted(t.description@)),
                        entry("parameters"@, t.parameters@),
                    ],
                ),
            ),
        ]);
        push_part(&mut items, obj_exec(&te));
        assert(ts.take(k + 1) =~= ts.take(k as int).push(ts[k as int]));
        k = k + 1;
    }
    assert(ts.take(tools@.len() as int) =~= ts);
    arr_exec(&items)
}

fn openai_message_exec(m: &Message) -> (r: Vec<char>)
    ensures
        r@ == openai_message(m@),
{
    match m.role {
        Role::Assistant => {
            let mut es: Vec<Vec<char>> = Vec::new();
            push_part(&mut es, entry_exec("role", lit("\"assistant\"").as_slice()));
            let content = if m.content.as_str().is_empty() && m.tool_calls.len() > 0 {
                lit("null")
            } else {
                quoted(m.content.as_str())
            };
            push_part(&mut es, entry_exec("content", content.as_slice()));
            let ghost head = views(es@);
            if m.tool_calls.len() > 0 {
                let ghost cv = call_views(m.tool_calls@);
                let ghost cs = cv.map_values(|c: ToolCallView| openai_call(c));
                let mut items: Vec<Vec<char>> = Vec::new();
                let mut i: usize = 0;
                while i < m.tool_calls.len()
                    invariant
                        i <= m.tool_calls@.len(),
                        cv == call_views(m.tool_calls@),
                        cs == cv.map_values(|c: ToolCallView| openai_call(c)),
                        views(items@) =~= cs.take(i as int),
                    decreases m.tool_calls@.len() - i,
                {
                    let c = &m.tool_calls[i];
                    let mut fe: Vec<Vec<char>> = Vec::new();
                    push_part(&mut fe, entry_exec("name", quoted(c.name.as_str()).as_slice()));
                    push_part(&mut fe, entry_exec("arguments", quoted(c.arguments.as_str()).as_slice()));
                    assert(views(fe@) =~= seq![entry("name"@, json_quoted(c.name@)), entry("arguments"@, json_quoted(c.arguments@))]);
                    let mut ce: Vec<Vec<char>> = Vec::new();
                    push_part(&mut ce, entry_exec("id", quoted(c.id.as_str()).as_slice()));
                    push_part(&mut ce, entry_exec("type", lit("\"function\"").as_slice()));
                    push_part(&mut ce, entry_exec("function", obj_exec(&fe).as_slice()));
                    assert(cv[i as int] == c@);
                    assert(views(ce@) =~= seq![
                        entry("id"@, json_quoted(c.id@)),
                        entry("type"@, "\"function\""@),
                        entry(
                            "function"@,
                            obj(seq![entry("name"@, json_quoted(c.name@)), entry("arguments"@, json_quoted(c.arguments@))]),
                        ),
                    ]);
                    push_part(&mut items, obj_exec(&ce));
                    assert(cs.take(i + 1) =~= cs.take(i as int).push(cs[i as int]));
                    i = i + 1;
                }
                assert(cs.take(m.tool_calls@.len() as int) =~= cs);
                push_part(&mut es, entry_exec("tool_calls", arr_exec(&items).as_slice()));
            }
            assert(views(es@) =~= seq![
                entry("role"@, "\"assistant\""@),
                entry(
                    "content"@,
                    if m@.content.len() == 0 && m@.tool_calls.len() > 0 {
                        "null"@
                    } else {
                        json_quoted(m@.content)
                    },
                ),
            ] + (if m@.tool_calls.len() > 0 {
                seq![entry("tool_calls"@, arr(m@.tool_calls.map_values(|c: ToolCallView| openai_call(c))))]
            } else {
                Seq::empty()
            }));
            obj_exec(&es)
        },
        Role::Tool => {
            let id: &str = match &m.tool_call_id {
                Some(id) => id.as_str(),
                None => "",
            };
            proof {
                reveal_strlit("");
            }
            assert(id@ == call_id_text(m@));
            let mut es: Vec<Vec<char>> = Vec::new();
            push_part(&mut es, entry_exec("role", lit("\"tool\"").as_slice()));
            push_part(&mut es, entry_exec("tool_call_id", quoted(id).as_slice()));
            push_part(&mut es, entry_exec("content", quoted(m.content.as_str()).as_slice()));
            assert(views(es@) =~= seq![
                entry("role"@, "\"tool\""@),
                entry("tool_call_id"@, json_quoted(call_id_text(m@))),
                entry("content"@, json_quoted(m@.content)),
            ]);
            obj_exec(&es)
        },
        _ => {
            let role: &str = if m.role == Role::System {
                "system"
            } else {
                "user"
            };
            assert(role@ == role_text(m@.role));
            let mut es: Vec<Vec<char>> = Vec::new();
            push_part(&mut es, entry_exec("role", quoted(role).as_slice()));
            push_part(&mut es, entry_exec("content", quoted(m.content.as_str()).as_slice()));
            assert(views(es@) =~= seq![entry("role"@, json_quoted(role_text(m@.role))), entry("content"@, json_quoted(m@.content))]);
            obj_exec(&es)
        },
    }
}

/// The OpenAI-compatible chat-completions body (see `openai_entries`).
pub fn openai_body(model: &str, messages: &Vec<Message>, tools: &Vec<ToolSchema>, params: &WireParams) -> (r: String)
    ensures
        r@ == canonical_or(obj(openai_entries(model@, msg_views(messages@), tools@, *params))),
{
    let ghost mv = msg_views(messages@);
    let ghost ws = mv.map_values(|m: MessageView| openai_message(m));
    let mut wm: Vec<Vec<char>> = Vec::new();
    let mut i: usize = 0;
    while i < messages.len()
        invariant
            i <= messages@.len(),
            mv == msg_views(messages@),
            ws == mv.map_values(|m: MessageView| openai_message(m)),
            views(wm@) =~= ws.take(i as int),
        decreases messages@.len() - i,
    {
        push_part(&mut wm, openai_message_exec(&messages[i]));
        assert(ws.take(i + 1) =~= ws.take(i as int).push(ws[i as int]));
        i = i + 1;
    }
    assert(ws.take(messages@.len() as int) =~= ws);
    let mut es: Vec<Vec<char>> = Vec::new();
    push_part(&mut es, entry_exec("model", quoted(model).as_slice()));
    push_part(&mut es, entry_exec("messages", arr_exec(&wm).as_slice()));
    push_part(&mut es, entry_exec("stream", lit("true").as_slice()));
    let mut so: Vec<Vec<char>> = Vec::new();
    push_part(&mut so, entry_exec("include_usage", lit("true").as_slice()));
    assert(views(so@) =~= seq![entry("include_usage"@, "true"@)]);
    push_part(&mut es, entry_exec("stream_options", obj_exec(&so).as_slice()));
    if tools.len() > 0 {
        push_part(&mut es, entry_exec("tools", function_tools_exec(tools).as_slice()));
    }
    push_opt(&mut es, "temperature", &params.temperature);
    push_opt(&mut es, "top_p", &params.top_p);
    push_num(&mut es, "max_tokens", params.max_tokens);
    assert(views(es@) =~= openai_entries(model@, mv, tools@, *params));
    let body = obj_exec(&es);
    canonical_or_exec(from_chars(body.as_slice()))
}

// ---------------------------------------------------------------------------
// Ollama
// ---------------------------------------------------------------------------

pub open spec fn ollama_call(c: ToolCallView) -> Seq<char> {
    obj(seq![entry("function"@, obj(seq![entry("name"@, json_quoted(c.name)), entry("arguments"@, c.arguments)]))])
}

/// One message on the Ollama wire: role and content, and the calls when
/// there are any.
pub open spec fn ollama_message(m: MessageView) -> Seq<char> {
    obj(
        seq![entry("role"@, json_quoted(role_text(m.role))), entry("content"@, json_quoted(m.content))] + (if m.tool_calls.len()
            > 0 {
            seq![entry("tool_calls"@, arr(m.tool_calls.map_values(|c: ToolCallView| ollama_call(c))))]
        } else {
            Seq::empty()
        }),
    )
}

/// The `think` field's JSON.
pub open spec fn think_json(v: (bool, Option<Seq<char>>)) -> Seq<char> {
    match v.1 {
        Some(level) => json_quoted(level),
        None => if v.0 {
            "true"@
        } else {
            "false"@
        },
    }
}

/// The entries of an Ollama `/api/chat` body: model, messages, streaming,
/// the options that are set (temperature, top_p, top_k, num_predict,
/// num_ctx); then the tools, keep_alive, think and the output format when
/// present.
pub open spec fn ollama_entries(model: Seq<char>, ms: Seq<MessageView>, tools: Seq<ToolSchema>, p: WireParams, format: Option<Seq<char>>) -> Seq<Seq<char>> {
    seq![
        entry("model"@, json_quoted(model)),
        entry("messages"@, arr(ms.map_values(|m: MessageView| ollama_message(m)))),
        entry("stream"@, "true"@),
        entry(
            "options"@,
            obj(
                opt_entry("temperature"@, p.temperature) + opt_entry("top_p"@, p.top_p) + opt_num_entry(
                    "top_k"@,
                    p.top_k,
                ) + opt_num_entry("num_predict"@, p.max_tokens) + opt_num_entry("num_ctx"@, p.num_ctx),
            ),
        ),
    ] + (if tools.len() > 0 {
        seq![entry("tools"@, arr(tools.map_values(|t: ToolSchema| function_tool(t))))]
    } else {
        Seq::empty()
    }) + (match p.keep_alive {
        Some(k) => seq![entry("keep_alive"@, json_quoted(k@))],
        None => Seq::empty(),
    }) + (match think_value(p.think, p.effort, model) {
        Some(v) => seq![entry("think"@, think_json(v))],
        None => Seq::empty(),
    }) + (match format {
        Some(f) => seq![entry("format"@, f)],
        None => Seq::empty(),
    })
}

fn ollama_message_exec(m: &Message) -> (r: Vec<char>)
    ensures
        r@ == ollama_message(m@),
{
    let role: &str = match m.role {
        Role::System => "system",
        Role::User => "user",
        Role::Assistant => "assistant",
        Role::Tool => "tool",
    };
    assert(role@ == role_text(m@.role));
    let mut es: Vec<Vec<char>> = Vec::new();
    push_part(&mut es, entry_exec("role", quoted(role).as_slice()));
    push_part(&mut es, entry_exec("content", quoted(m.content.as_str()).as_slice()));
    let ghost head = views(es@);
    if m.tool_calls.len() > 0 {
        let ghost cv = call_views(m.tool_calls@);
        let ghost cs = cv.map_values(|c: ToolCallView| ollama_call(c));
        let mut items: Vec<Vec<char>> = Vec::new();
        let mut i: usize = 0;
        while i < m.tool_calls.len()
            invariant
                i <= m.tool_calls@.len(),
                cv == call_views(m.tool_calls@),
                cs == cv.map_values(|c: ToolCallView| ollama_call(c)),
                views(items@) =~= cs.take(i as int),
            decreases m.tool_calls@.len() - i,
        {
            let c = &m.tool_calls[i];
            let mut fe: Vec<Vec<char>> = Vec::new();
            push_part(&mut fe, entry_exec("name", quoted(c.name.as_str()).as_slice()));
            push_part(&mut fe, entry_exec("arguments", to_chars(c.arguments.as_str()).as_slice()));
            assert(views(fe@) =~= seq![entry("name"@, json_quoted(c.name@)), entry("arguments"@, c.arguments@)]);
            let mut ce: Vec<Vec<char>> = Vec::new();
            push_part(&mut ce, entry_exec("function", obj_exec(&fe).as_slice()));
            assert(cv[i as int] == c@);
            assert(views(ce@) =~= seq![entry("function"@, obj(seq![entry("name"@, json_quoted(c.name@)), entry("arguments"@, c.arguments@)]))]);
            push_part(&mut items, obj_exec(&ce));
            assert(cs.take(i + 1) =~= cs.take(i as int).push(cs[i as int]));
            i = i + 1;
        }
        assert(cs.take(m.tool_calls@.len() as int) =~= cs);
        push_part(&mut es, entry_exec("tool_calls", arr_exec(&items).as_slice()));
    }
    assert(views(es@) =~= seq![entry("role"@, json_quoted(role_text(m@.role))), entry("content"@, json_quoted(m@.content))] + (if m@.tool_calls.len()
        > 0 {
        seq![entry("tool_calls"@, arr(m@.tool_calls.map_values(|c: ToolCallView| ollama_call(c))))]
    } else {
        Seq::empty()
    }));
    obj_exec(&es)
}

/// The Ollama `/api/chat` body (see `ollama_entries`); `format` is the
/// JSON Schema for constrained output, as text.
pub fn ollama_body(model: &str, messages: &Vec<Message>, tools: &Vec<ToolSchema>, params: &WireParams, format: Option<&str>) -> (r: String)
    ensures
        r@ == canonical_or(
            obj(
                ollama_entries(
                    model@,
                    msg_views(messages@),
                    tools@,
                    *params,
                    match format {
                        Some(f) => Some(f@),
                        None => None,
                    },
                ),
            ),
        ),
{
    let ghost mv = msg_views(messages@);
    let ghost ws = mv.map_values(|m: MessageView| ollama_message(m));
    let mut wm: Vec<Vec<char>> = Vec::new();
    let mut i: usize = 0;
    while i < messages.len()
        invariant
            i <= messages@.len(),
            mv == msg_views(messages@),
            ws == mv.map_values(|m: MessageView| ollama_message(m)),
            views(wm@) =~= ws.take(i as int),
        decreases messages@.len() - i,
    {
        push_part(&mut wm, ollama_message_exec(&messages[i]));
        assert(ws.take(i + 1) =~= ws.take(i as int).push(ws[i as int]));
        i = i + 1;
    }
    assert(ws.take(messages@.len() as int) =~= ws);
    let mut opts: Vec<Vec<char>> = Vec::new();
    push_opt(&mut opts, "temperature", &params.temperature);
    push_opt(&mut opts, "top_p", &params.top_p);
    push_num(&mut opts, "top_k", params.top_k);
    push_num(&mut opts, "num_predict", params.max_tokens);
    push_num(&mut opts, "num_ctx", params.num_ctx);
    let mut es: Vec<Vec<char>> = Vec::new();
    push_part(&mut es, entry_exec("model", quoted(model).as_slice()));
    push_part(&mut es, entry_exec("messages", arr_exec(&wm).as_slice()));
    push_part(&mut es, entry_exec("stream", lit("true").as_slice()));
    push_part(&mut es, entry_exec("options", obj_exec(&opts).as_slice()));
    if tools.len() > 0 {
        push_part(&mut es, entry_exec("tools", function_tools_exec(tools).as_slice()));
    }
    match &params.keep_alive {
        Some(k) => push_part(&mut es, entry_exec("keep_alive", quoted(k.as_str()).as_slice())),
        None => {},
    }
    match wire_think(params.think, params.effort, model) {
        Some(ThinkWire::Flag(b)) => {
            let t = if b {
                lit("true")
            } else {
                lit("false")
            };
            push_part(&mut es, entry_exec("think", t.as_slice()));
        },
        Some(ThinkWire::Level(l)) => push_part(&mut es, entry_exec("think", quoted(l.as_str()).as_slice())),
        None => {},
    }
    match format {
        Some(f) => push_part(&mut es, entry_exec("format", to_chars(f).as_slice())),
        None => {},
    }
    assert(views(es@) =~= ollama_entries(
        model@,
        mv,
        tools@,
        *params,
        match format {
            Some(f) => Some(f@),
            None => None,
        },
    ));
    let body = obj_exec(&es);
    canonical_or_exec(from_chars(body.as_slice()))
}

// ---------------------------------------------------------------------------
// Gemini
// ---------------------------------------------------------------------------

/// The name of the first call with this id in a list of calls.
pub open spec fn first_named(c: Seq<ToolCallView>, id: Seq<char>) -> Option<Seq<char>>
    decreases c.len(),
{
    if c.len() == 0 {
        None
    } else if c[0].id == id {
        Some(c[0].name)
    } else {
        first_named(c.drop_first(), id)
    }
}

/// The tool name a result answers: the latest assistant message with a
/// call of that id names it; `unknown` when none does.
pub open spec fn latest_call_name(ms: Seq<MessageView>, id: Seq<char>) -> Option<Seq<char>>
    decreases ms.len(),
{
    if ms.len() == 0 {
        None
    } else if ms.last().role == Role::Assistant && first_named(ms.last().tool_calls, id) is Some {
        first_named(ms.last().tool_calls, id)
    } else {
        latest_call_name(ms.drop_last(), id)
    }
}

pub open spec fn gemini_call_name(before: Seq<MessageView>, id: Option<Seq<char>>) -> Seq<char> {
    match id {
        Some(i) => match latest_call_name(before, i) {
            Some(n) => n,
            None => "unknown"@,
        },
        None => "unknown"@,
    }
}

/// A function response must be an object: a result that is a JSON object
/// goes as it is, anything else as `{"result": <text>}`.
pub open spec fn gemini_response(content: Seq<char>) -> Seq<char> {
    if json_kind_of(content) == JsonKind::Object && json_canon(content) is Some {
        json_canon(content).unwrap()
    } else {
        obj(seq![entry("result"@, json_quoted(content))])
    }
}

pub open spec fn gemini_text(c: Seq<char>) -> Seq<char> {
    obj(seq![entry("text"@, json_quoted(c))])
}

pub open spec fn gemini_call(c: ToolCallView) -> Seq<char> {
    obj(seq![entry("functionCall"@, obj(seq![entry("name"@, json_quoted(c.name)), entry("args"@, c.arguments)]))])
}

/// The role and parts of a non-system message, given the messages before it.
pub open spec fn gemini_item(before: Seq<MessageView>, m: MessageView) -> TurnText {
    match m.role {
        Role::Assistant => (
            "model"@,
            (if m.content.len() > 0 {
                seq![gemini_text(m.content)]
            } else {
                Seq::empty()
            }) + m.tool_calls.map_values(|c: ToolCallView| gemini_call(c)),
        ),
        Role::Tool => (
            "user"@,
            seq![
                obj(
                    seq![
                        entry(
                            "functionResponse"@,
                            obj(
                                seq![
                                    entry("name"@, json_quoted(gemini_call_name(before, m.tool_call_id))),
                                    entry("response"@, gemini_response(m.content)),
                                ],
                            ),
                        ),
                    ],
                ),
            ],
        ),
        _ => ("user"@, seq![gemini_text(m.content)]),
    }
}

pub open spec fn gemini_turns(ms: Seq<MessageView>) -> (Seq<char>, Seq<TurnText>)
    decreases ms.len(),
{
    if ms.len() == 0 {
        (Seq::empty(), Seq::empty())
    } else {
        let (sys, t) = gemini_turns(ms.drop_last());
        let m = ms.last();
        if m.role == Role::System {
            (add_system(sys, m.content), t)
        } else {
            (sys, merge_turn(t, gemini_item(ms.drop_last(), m).0, gemini_item(ms.drop_last(), m).1))
        }
    }
}

/// How many levels of nesting `$schema` members are removed from;
/// `serde_json` refuses documents nested deeper than this.
pub const SCHEMA_DEPTH: u32 = 128;

/// The JSON text `text` with every `$schema` member of every object left
/// out, down to `depth` levels; arrays are walked item by item, objects
/// member by member; any other value is kept as it is.
pub open spec fn stripped(text: Seq<char>, depth: nat) -> Seq<char>
    decreases depth, 0nat,
{
    if depth == 0 {
        text
    } else {
        match json_kind_of(text) {
            JsonKind::Object => obj(stripped_members(json_entries_of(text), (depth - 1) as nat)),
            JsonKind::Array => arr(stripped_items(json_items_of(text), (depth - 1) as nat)),
            _ => text,
        }
    }
}

/// `"key":value` for each member but `$schema`, the value stripped.
pub open spec fn stripped_members(es: Seq<(Seq<char>, Seq<char>)>, depth: nat) -> Seq<Seq<char>>
    decreases depth, es.len() + 1,
{
    if es.len() == 0 {
        Seq::empty()
    } else {
        let rest = stripped_members(es.drop_last(), depth);
        let kv = es.last();
        if kv.0 == "$schema"@ {
            rest
        } else {
            rest.push(json_quoted(kv.0) + seq![':'] + stripped(kv.1, depth))
        }
    }
}

/// Each item stripped.
pub open spec fn stripped_items(items: Seq<Seq<char>>, depth: nat) -> Seq<Seq<char>>
    decreases depth, items.len() + 1,
{
    if items.len() == 0 {
        Seq::empty()
    } else {
        stripped_items(items.drop_last(), depth).push(stripped(items.last(), depth))
    }
}

/// See `stripped`.
fn strip_schema_keys(text: &str, depth: u32) -> (r: Vec<char>)
    ensures
        r@ == stripped(text@, depth as nat),
    decreases depth,
{
    if depth == 0 {
        return to_chars(text);
    }
    let d: u32 = depth - 1;
    match json_kind(text) {
        JsonKind::Object => {
            let es = json_entries(text);
            let ghost ev = json_entries_of(text@);
            let mut parts: Vec<Vec<char>> = Vec::new();
            let mut i: usize = 0;
            while i < es.len()
                invariant
                    i <= es@.len(),
                    es@.map_values(|p: (String, String)| (p.0@, p.1@)) == ev,
                    views(parts@) == stripped_members(ev.take(i as int), d as nat),
                    d + 1 == depth,
                decreases es@.len() - i,
            {
                assert(ev.take(i + 1).drop_last() =~= ev.take(i as int));
                assert(ev.take(i + 1).last() == ev[i as int]);
                let k = &es[i].0;
                let v = &es[i].1;
                assert(ev[i as int] == (k@, v@));
                if !str_eq(k.as_str(), "$schema") {
                    let mut m = quoted(k.as_str());
                    m.push(':');
                    let inner = strip_schema_keys(v.as_str(), d);
                    extend(&mut m, inner.as_slice());
                    assert(m@ =~= json_quoted(k@) + seq![':'] + stripped(v@, d as nat));
                    push_part(&mut parts, m);
                }
                i = i + 1;
            }
            assert(ev.take(es@.len() as int) =~= ev);
            obj_exec(&parts)
        },
        JsonKind::Array => {
            let items = json_items(text);
            let ghost iv = json_items_of(text@);
            let mut parts: Vec<Vec<char>> = Vec::new();
            let mut i: usize = 0;
            while i < items.len()
                invariant
                    i <= items@.len(),
                    items@.map_values(|s: String| s@) == iv,
                    views(parts@) == stripped_items(iv.take(i as int), d as nat),
                    d + 1 == depth,
                decreases items@.len() - i,
            {
                assert(iv.take(i + 1).drop_last() =~= iv.take(i as int));
                assert(iv.take(i + 1).last() == iv[i as int]);
                assert(iv[i as int] == items@[i as int]@);
                let inner = strip_schema_keys(items[i].as_str(), d);
                push_part(&mut parts, inner);
                i = i + 1;
            }
            assert(iv.take(items@.len() as int) =~= iv);
            arr_exec(&parts)
        },
        _ => to_chars(text),
    }
}

pub open spec fn gemini_decl(t: ToolSchema) -> Seq<char> {
    obj(
        seq![
            entry("name"@, json_quoted(t.name@)),
            entry("description"@, json_quoted(t.description@)),
            entry("parameters"@, stripped(t.parameters@, SCHEMA_DEPTH as nat)),
        ],
    )
}

pub open spec fn generation_config(p: WireParams) -> Seq<Seq<char>> {
    opt_entry("temperature"@, p.temperature) + opt_entry("topP"@, p.top_p) + opt_num_entry("topK"@, p.top_k)
        + opt_num_entry("maxOutputTokens"@, p.max_tokens)
}

/// The entries of a Gemini `streamGenerateContent` body: the contents
/// (merged turns, roles `user` and `model`); the system instruction when
/// there is one; the function declarations (parameters without `$schema`
/// members, see `stripped`) when
/// there are tools; the generation settings that are set.
pub open spec fn gemini_entries(ms: Seq<MessageView>, tools: Seq<ToolSchema>, p: WireParams) -> Seq<Seq<char>> {
    let (sys, turns) = gemini_turns(ms);
    seq![entry("contents"@, arr(turn_objects(turns, "parts"@)))] + (if sys.len() > 0 {
        seq![entry("systemInstruction"@, obj(seq![entry("parts"@, arr(seq![gemini_text(sys)]))]))]
    } else {
        Seq::empty()
    }) + (if tools.len() > 0 {
        seq![
            entry(
                "tools"@,
                arr(
                    seq![
                        obj(
                            seq![
                                entry(
                                    "functionDeclarations"@,
                                    arr(tools.map_values(|t: ToolSchema| gemini_decl(t))),
                                ),
                            ],
                        ),
                    ],
                ),
            ),
        ]
    } else {
        Seq::empty()
    }) + (if generation_config(p).len() > 0 {
        seq![entry("generationConfig"@, obj(generation_config(p)))]
    } else {
        Seq::empty()
    })
}

fn first_named_exec(c: &Vec<crate::model::ToolCall>, id: &str) -> (r: Option<String>)
    ensures
        crate::model::opt_view(r) == first_named(call_views(c@), id@),
{
    let ghost cv = call_views(c@);
    let mut i: usize = 0;
    assert(cv.skip(0) =~= cv);
    while i < c.len()
        invariant
            i <= c@.len(),
            cv == call_views(c@),
            first_named(cv, id@) == first_named(cv.skip(i as int), id@),
        decreases c@.len() - i,
    {
        let ghost t = cv.skip(i as int);
        assert(t[0] == c@[i as int]@);
        assert(t.drop_first() =~= cv.skip(i + 1));
        if crate::text::str_eq(c[i].id.as_str(), id) {
            return Some(c[i].name.clone());
        }
        i = i + 1;
    }
    None
}

fn gemini_call_name_exec(messages: &Vec<Message>, upto: usize, id: &Option<String>) -> (r: String)
    requires
        upto <= messages@.len(),
    ensures
        r@ == gemini_call_name(msg_views(messages@).take(upto as int), crate::model::opt_view(*id)),
{
    match id {
        None => "unknown".to_string(),
        Some(key) => {
            let ghost mv = msg_views(messages@);
            let mut k: usize = upto;
            while k > 0
                invariant
                    k <= upto <= messages@.len(),
                    mv == msg_views(messages@),
                    crate::model::opt_view(*id) == Some(key@),
                    latest_call_name(mv.take(upto as int), key@) == latest_call_name(mv.take(k as int), key@),
                decreases k,
            {
                let ghost p = mv.take(k as int);
                assert(p.last() == messages@[k - 1]@);
                assert(p.drop_last() =~= mv.take(k - 1));
                if messages[k - 1].role == Role::Assistant {
                    match first_named_exec(&messages[k - 1].tool_calls, key.as_str()) {
                        Some(n) => {
                            return n;
                        },
                        None => {},
                    }
                }
                k = k - 1;
            }
            "unknown".to_string()
        },
    }
}

fn gemini_text_exec(c: &str) -> (r: Vec<char>)
    ensures
        r@ == gemini_text(c@),
{
    let mut es: Vec<Vec<char>> = Vec::new();
    push_part(&mut es, entry_exec("text", quoted(c).as_slice()));
    assert(views(es@) =~= seq![entry("text"@, json_quoted(c@))]);
    obj_exec(&es)
}

fn gemini_response_exec(content: &str) -> (r: Vec<char>)
    ensures
        r@ == gemini_response(content@),
{
    if json_kind(content) == JsonKind::Object {
        match canonical_json(content) {
            Some(c) => {
                return to_chars(c.as_str());
            },
            None => {},
        }
    }
    let mut es: Vec<Vec<char>> = Vec::new();
    push_part(&mut es, entry_exec("result", quoted(content).as_slice()));
    assert(views(es@) =~= seq![entry("result"@, json_quoted(content@))]);
    obj_exec(&es)
}

fn gemini_item_exec(messages: &Vec<Message>, i: usize) -> (r: (String, Vec<Vec<char>>))
    requires
        i < messages@.len(),
        messages@[i as int].role != Role::System,
    ensures
        (r.0@, views(r.1@)) == gemini_item(msg_views(messages@).take(i as int), messages@[i as int]@),
{
    let m = &messages[i];
    match m.role {
        Role::Assistant => {
            let mut parts: Vec<Vec<char>> = Vec::new();
            if !m.content.as_str().is_empty() {
                push_part(&mut parts, gemini_text_exec(m.content.as_str()));
            }
            let ghost head = views(parts@);
            let ghost cs = call_views(m.tool_calls@).map_values(|c: ToolCallView| gemini_call(c));
            let mut k: usize = 0;
            while k < m.tool_calls.len()
                invariant
                    k <= m.tool_calls@.len(),
                    cs == call_views(m.tool_calls@).map_values(|c: ToolCallView| gemini_call(c)),
                    views(parts@) =~= head + cs.take(k as int),
                decreases m.tool_calls@.len() - k,
            {
                let c = &m.tool_calls[k];
                let mut fe: Vec<Vec<char>> = Vec::new();
                push_part(&mut fe, entry_exec("name", quoted(c.name.as_str()).as_slice()));
                push_part(&mut fe, entry_exec("args", to_chars(c.arguments.as_str()).as_slice()));
                assert(views(fe@) =~= seq![entry("name"@, json_quoted(c.name@)), entry("args"@, c.arguments@)]);
                let mut ce: Vec<Vec<char>> = Vec::new();
                push_part(&mut ce, entry_exec("functionCall", obj_exec(&fe).as_slice()));
                assert(views(ce@) =~= seq![entry("functionCall"@, obj(seq![entry("name"@, json_quoted(c.name@)), entry("args"@, c.arguments@)]))]);
                assert(call_views(m.tool_calls@)[k as int] == c@);
                push_part(&mut parts, obj_exec(&ce));
                assert(cs.take(k + 1) =~= cs.take(k as int).push(cs[k as int]));
                k = k + 1;
            }
            assert(cs.take(m.tool_calls@.len() as int) =~= cs);
            ("model".to_string(), parts)
        },
        Role::Tool => {
            let name = gemini_call_name_exec(messages, i, &m.tool_call_id);
            let mut fe: Vec<Vec<char>> = Vec::new();
            push_part(&mut fe, entry_exec("name", quoted(name.as_str()).as_slice()));
            push_part(&mut fe, entry_exec("response", gemini_response_exec(m.content.as_str()).as_slice()));
            let mut ce: Vec<Vec<char>> = Vec::new();
            push_part(&mut ce, entry_exec("functionResponse", obj_exec(&fe).as_slice()));
            let mut parts: Vec<Vec<char>> = Vec::new();
            push_part(&mut parts, obj_exec(&ce));
            proof {
                let before = msg_views(messages@).take(i as int);
                let mm = messages@[i as int]@;
                assert(views(fe@) =~= seq![
                    entry("name"@, json_quoted(gemini_call_name(before, mm.tool_call_id))),
                    entry("response"@, gemini_response(mm.content)),
                ]);
                assert(views(ce@) =~= seq![entry("functionResponse"@, obj(views(fe@)))]);
                assert(views(parts@) =~= gemini_item(before, mm).1);
            }
            ("user".to_string(), parts)
        },
        _ => {
            let mut parts: Vec<Vec<char>> = Vec::new();
            push_part(&mut parts, gemini_text_exec(m.content.as_str()));
            assert(views(parts@) =~= gemini_item(msg_views(messages@).take(i as int), m@).1);
            ("user".to_string(), parts)
        },
    }
}

/// The Gemini request body (see `gemini_entries`).
pub fn gemini_body(messages: &Vec<Message>, tools: &Vec<ToolSchema>, params: &WireParams) -> (r: String)
    ensures
        r@ == canonical_or(obj(gemini_entries(msg_views(messages@), tools@, *params))),
{
    let ghost mv = msg_views(messages@);
    let mut sys: Vec<char> = Vec::new();
    let mut turns: Vec<(String, Vec<Vec<char>>)> = Vec::new();
    let mut i: usize = 0;
    while i < messages.len()
        invariant
            i <= messages@.len(),
            mv == msg_views(messages@),
            (sys@, turn_views(turns@)) == gemini_turns(mv.take(i as int)),
        decreases messages@.len() - i,
    {
        proof {
            assert(mv.take(i + 1).drop_last() =~= mv.take(i as int));
            assert(mv.take(i + 1).last() == messages@[i as int]@);
        }
        if messages[i].role == Role::System {
            add_system_exec(&mut sys, messages[i].content.as_str());
        } else {
            let (role, parts) = gemini_item_exec(messages, i);
            merge_turn_exec(&mut turns, role.as_str(), parts);
        }
        i = i + 1;
    }
    assert(mv.take(messages@.len() as int) =~= mv);
    let mut es: Vec<Vec<char>> = Vec::new();
    let tobj = turn_objects_exec(&turns, "parts");
    push_part(&mut es, entry_exec("contents", arr_exec(&tobj).as_slice()));
    if sys.len() > 0 {
        let s = from_chars(sys.as_slice());
        let mut one: Vec<Vec<char>> = Vec::new();
        push_part(&mut one, gemini_text_exec(s.as_str()));
        let mut si: Vec<Vec<char>> = Vec::new();
        push_part(&mut si, entry_exec("parts", arr_exec(&one).as_slice()));
        assert(views(si@) =~= seq![entry("parts"@, arr(seq![gemini_text(sys@)]))]);
        push_part(&mut es, entry_exec("systemInstruction", obj_exec(&si).as_slice()));
    }
    if tools.len() > 0 {
        let ghost ds = tools@.map_values(|t: ToolSchema| gemini_decl(t));
        let mut decls: Vec<Vec<char>> = Vec::new();
        let mut k: usize = 0;
        while k < tools.len()
            invariant
                k <= tools@.len(),
                ds == tools@.map_values(|t: ToolSchema| gemini_decl(t)),
                views(decls@) =~= ds.take(k as int),
            decreases tools@.len() - k,
        {
            let t = &tools[k];
            let mut te: Vec<Vec<char>> = Vec::new();
            push_part(&mut te, entry_exec("name", quoted(t.name.as_str()).as_slice()));
            push_part(&mut te, entry_exec("description", quoted(t.description.as_str()).as_slice()));
            push_part(&mut te, entry_exec("parameters", strip_schema_keys(t.parameters.as_str(), SCHEMA_DEPTH).as_slice()));
            assert(views(te@) =~= seq![
                entry("name"@, json_quoted(t.name@)),
                entry("description"@, json_quoted(t.description@)),
                entry("parameters"@, stripped(t.parameters@, SCHEMA_DEPTH as nat)),
            ]);
            push_part(&mut decls, obj_exec(&te));
            assert(ds.take(k + 1) =~= ds.take(k as int).push(ds[k as int]));
            k = k + 1;
        }
        assert(ds.take(tools@.len() as int) =~= ds);
        let mut fd: Vec<Vec<char>> = Vec::new();
        push_part(&mut fd, entry_exec("functionDeclarations", arr_exec(&decls).as_slice()));
        let mut wrapped: Vec<Vec<char>> = Vec::new();
        push_part(&mut wrapped, obj_exec(&fd));
        assert(views(wrapped@) =~= seq![obj(seq![entry("functionDeclarations"@, arr(ds))])]);
        push_part(&mut es, entry_exec("tools", arr_exec(&wrapped).as_slice()));
    }
    let mut gc: Vec<Vec<char>> = Vec::new();
    push_opt(&mut gc, "temperature", &params.temperature);
    push_opt(&mut gc, "topP", &params.top_p);
    push_num(&mut gc, "topK", params.top_k);
    push_num(&mut gc, "maxOutputTokens", params.max_tokens);
    assert(views(gc@) =~= generation_config(*params));
    if gc.len() > 0 {
        push_part(&mut es, entry_exec("generationConfig", obj_exec(&gc).as_slice()));
    }
    proof {
        let (s2, t2) = gemini_turns(mv);
        assert(s2 == sys@);
        assert(views(es@) =~= gemini_entries(mv, tools@, *params));
    }
    let body = obj_exec(&es);
    canonical_or_exec(from_chars(body.as_slice()))
}

} // verus!
