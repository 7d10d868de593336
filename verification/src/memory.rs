//! The two memory files: the project's BRAINBOX.md (goals, state,
//! decisions, gotchas, next steps) and the user's global LESSONS.md. What is
//! injected from them, the transcript the refresher model sees, how its
//! answer is accepted, and when a background refresh is due.
use vstd::prelude::*;

use crate::model::{msg_views, Message, MessageView, Role, ToolCallView};
use crate::paths::joined;
use crate::text::{
    byte_cut, byte_cut_exec, byte_len, chars_and_len, contains, contains_exec, extend, extend_str,
    find, find_exec, from_chars, rfind, rfind_exec, slice_to_vec, starts_with_exec, strip_all,
    strip_all_exec, to_chars, trim, trim_end, trim_end_exec, trim_exec,
};

verus! {

pub const BRAINBOX_FILE: &'static str = "BRAINBOX.md";

pub const LESSONS_FILE_NAME: &'static str = "LESSONS.md";

/// Bytes of BRAINBOX.md shown by `/context`.
pub const BRAINBOX_LOAD_CAP: usize = 4096;

/// Bytes of LESSONS.md injected into the system prompt.
pub const LESSONS_LOAD_CAP: usize = 2048;

/// Bytes of the compact BRAINBOX head injected at startup.
pub const HEAD_CAP: usize = 1200;

/// Bytes of a BRAINBOX.md without those sections taken instead.
pub const FALLBACK_CAP: usize = 800;

/// Messages of recent transcript the refresher sees.
pub const SNAPSHOT_MESSAGES: usize = 30;

/// Bytes kept of each message in that transcript.
pub const SNAPSHOT_CHARS_PER_MESSAGE: usize = 600;

pub const BRAINBOX_TRUNCATED: &'static str = "\n[BRAINBOX truncated for context]";

pub const LESSONS_TRUNCATED: &'static str = "\n[LESSONS truncated]";

pub const GOALS_HEADING: &'static str = "## Goals";

pub const NEXT_HEADING: &'static str = "## Next steps";

pub const SECTION_START: &'static str = "\n## ";

pub const UPDATE_SYSTEM: &'static str = "You maintain a project memory file. Respond with ONLY the new file content, no preamble or code fences.";

pub const CAPTURE_SYSTEM: &'static str = "You maintain a user's global preferences file. You are extremely conservative. Respond with ONLY the file content, no preamble or code fences.";

pub const UPDATE_HEAD: &'static str = "Update this project memory file using the recent session transcript. Carry forward everything from the current file that is still true and relevant; fold in what changed. Be specific: exact file paths, commands, error messages. Stay under 80 lines total.\n\nRequired structure (all five sections, exactly these headings):\n# BRAINBOX\n## Goals\n## State\n## Decisions\n## Gotchas\n## Next steps\n\nCURRENT FILE:\n";

pub const UPDATE_NO_FILE: &'static str = "(no existing file — create it)";

pub const CAPTURE_HEAD: &'static str = "Review the recent session transcript for signals about how THIS USER wants an AI coding agent to behave — across all their projects, not just this one.\n\nUpdate the file ONLY when the transcript clearly shows one of these:\n1. The user EXPLICITLY stated a preference (\"always use X\", \"I prefer Y\", \"don't do Z\").\n2. The user CORRECTED the agent's behavior or output in a way that generalizes beyond this one task.\n3. The SAME mistake recurred and the user pushed back on it more than once.\n\nDo NOT infer preferences from ordinary task instructions, one-off requests, or the agent's own guesses. If nothing in the transcript qualifies, output the CURRENT FILE UNCHANGED, byte for byte. Never invent preferences.\n\nKeep exactly these headings, each a short bulleted list. Keep the whole file under 40 lines. Merge duplicates; never repeat a rule.\n\n# LESSONS\n## Preferences\n## Rules\n\nCURRENT FILE:\n";

pub const CAPTURE_NO_FILE: &'static str = "(no existing file — create it only if a rule qualifies below)";

pub const TRANSCRIPT_HEAD: &'static str = "\n\nRECENT TRANSCRIPT:\n";

pub const PROMPT_TAIL: &'static str = "\n\nRespond with only the new file content.";

// ---------------------------------------------------------------------------
// Paths
// ---------------------------------------------------------------------------

/// `<cwd>/.rocinante/BRAINBOX.md`.
pub open spec fn brainbox_path(cwd: Seq<char>) -> Seq<char> {
    joined(joined(cwd, ".rocinante"@), BRAINBOX_FILE@)
}

/// Where the project's memory file lives (see `brainbox_path`).
pub fn path_for(cwd: &str) -> (r: String)
    ensures
        r@ == brainbox_path(cwd@),
{
    let d = crate::paths::join_path(cwd, ".rocinante");
    crate::paths::join_path(d.as_str(), BRAINBOX_FILE)
}

/// `<home>/.rocinante/LESSONS.md`, when there is a home directory.
pub open spec fn lessons_path(home: Option<Seq<char>>) -> Option<Seq<char>> {
    match home {
        Some(h) => Some(joined(joined(h, ".rocinante"@), LESSONS_FILE_NAME@)),
        None => None,
    }
}

/// Where the user's global lessons file lives (see `lessons_path`).
pub fn lessons_path_in(home: Option<&str>) -> (r: Option<String>)
    ensures
        match r {
            Some(p) => lessons_path(
                match home {
                    Some(h) => Some(h@),
                    None => None,
                },
            ) == Some(p@),
            None => home is None,
        },
{
    match home {
        Some(h) => {
            let d = crate::paths::join_path(h, ".rocinante");
            Some(crate::paths::join_path(d.as_str(), LESSONS_FILE_NAME))
        },
        None => None,
    }
}

// ---------------------------------------------------------------------------
// What is injected
// ---------------------------------------------------------------------------

/// The `heading` section of `content`: from the heading through the next
/// `\n## ` (or the end), heading included.
pub open spec fn section_of(content: Seq<char>, heading: Seq<char>) -> Option<Seq<char>> {
    match find(content, heading) {
        None => None,
        Some(s) => {
            let after = content.skip(s + heading.len());
            match find(after, SECTION_START@) {
                Some(i) => Some(content.subrange(s, s + heading.len() + i)),
                None => Some(content.skip(s)),
            }
        },
    }
}

/// Extract one `## ` section (see `section_of`).
pub fn extract_section(content: &str, heading: &str) -> (r: Option<String>)
    ensures
        match r {
            Some(x) => section_of(content@, heading@) == Some(x@),
            None => section_of(content@, heading@) is None,
        },
{
    let c = to_chars(content);
    let h = to_chars(heading);
    let start = match find_exec(c.as_slice(), h.as_slice()) {
        None => {
            return None;
        },
        Some(s) => s,
    };
    proof {
        crate::text::lemma_find_some(c@, h@, start as int);
    }
    let cl = c.len();
    let hl = h.len();
    let after = slice_to_vec(c.as_slice(), start + hl, cl);
    assert(after@ =~= c@.skip(start + h@.len()));
    let marker = to_chars(SECTION_START);
    match find_exec(after.as_slice(), marker.as_slice()) {
        Some(i) => {
            proof {
                crate::text::lemma_find_some(after@, marker@, i as int);
            }
            let x = slice_to_vec(c.as_slice(), start, start + h.len() + i);
            Some(from_chars(x.as_slice()))
        },
        None => {
            let x = slice_to_vec(c.as_slice(), start, c.len());
            assert(x@ =~= c@.skip(start as int));
            Some(from_chars(x.as_slice()))
        },
    }
}

/// Add a section to the head being built: a blank line between sections,
/// each trimmed at the end and closed by a newline.
pub open spec fn add_section(head: Seq<char>, sec: Option<Seq<char>>) -> Seq<char> {
    match sec {
        None => head,
        Some(s) => (if head.len() > 0 {
            head.push('\n')
        } else {
            head
        }) + trim_end(s) + seq!['\n'],
    }
}

/// The compact head of BRAINBOX.md: its `## Goals` and `## Next steps`
/// sections, capped at `HEAD_CAP` bytes; the first `FALLBACK_CAP` bytes of
/// the file when it has neither; nothing for a blank file.
pub open spec fn head_of(content: Seq<char>) -> Option<Seq<char>> {
    let head = add_section(
        add_section(Seq::empty(), section_of(content, GOALS_HEADING@)),
        section_of(content, NEXT_HEADING@),
    );
    if trim(content).len() == 0 {
        None
    } else if trim(head).len() == 0 {
        Some(trim_end(byte_cut(content, FALLBACK_CAP as nat)))
    } else {
        Some(trim_end(byte_cut(head, HEAD_CAP as nat)))
    }
}

fn add_section_exec(head: &mut Vec<char>, sec: Option<String>)
    ensures
        final(head)@ == add_section(
            old(head)@,
            match sec {
                Some(s) => Some(s@),
                None => None,
            },
        ),
{
    match sec {
        None => {},
        Some(s) => {
            if head.len() > 0 {
                head.push('\n');
            }
            let c = to_chars(s.as_str());
            let t = trim_end_exec(c.as_slice());
            extend(head, t.as_slice());
            head.push('\n');
        },
    }
}

/// The compact BRAINBOX head for the system prompt, from the file's text
/// (see `head_of`).
pub fn head_from(content: &str) -> (r: Option<String>)
    ensures
        match r {
            Some(h) => head_of(content@) == Some(h@),
            None => head_of(content@) is None,
        },
{
    let c = to_chars(content);
    let t = trim_exec(c.as_slice());
    if t.len() == 0 {
        return None;
    }
    let mut head: Vec<char> = Vec::new();
    add_section_exec(&mut head, extract_section(content, GOALS_HEADING));
    add_section_exec(&mut head, extract_section(content, NEXT_HEADING));
    let th = trim_exec(head.as_slice());
    let base = if th.len() == 0 {
        byte_cut_exec(c.as_slice(), FALLBACK_CAP)
    } else {
        byte_cut_exec(head.as_slice(), HEAD_CAP)
    };
    let r = trim_end_exec(base.as_slice());
    Some(from_chars(r.as_slice()))
}

/// A memory file as loaded for display or injection: nothing when blank;
/// cut to `cap` bytes with `note` appended when longer.
pub open spec fn capped_text(content: Seq<char>, cap: nat, note: Seq<char>) -> Option<Seq<char>> {
    if trim(content).len() == 0 {
        None
    } else if byte_len(content) > cap {
        Some(byte_cut(content, cap) + note)
    } else {
        Some(content)
    }
}

fn capped_exec(content: &str, cap: usize, note: &str) -> (r: Option<String>)
    ensures
        match r {
            Some(x) => capped_text(content@, cap as nat, note@) == Some(x@),
            None => capped_text(content@, cap as nat, note@) is None,
        },
{
    let (c, n) = chars_and_len(content);
    let t = trim_exec(c.as_slice());
    if t.len() == 0 {
        return None;
    }
    if n > cap {
        let mut v = byte_cut_exec(c.as_slice(), cap);
        extend_str(&mut v, note);
        Some(from_chars(v.as_slice()))
    } else {
        Some(crate::text::own(content))
    }
}

/// BRAINBOX.md as shown by `/context`, capped at `BRAINBOX_LOAD_CAP` bytes.
pub fn brainbox_load(content: &str) -> (r: Option<String>)
    ensures
        match r {
            Some(x) => capped_text(content@, BRAINBOX_LOAD_CAP as nat, BRAINBOX_TRUNCATED@)
                == Some(x@),
            None => capped_text(content@, BRAINBOX_LOAD_CAP as nat, BRAINBOX_TRUNCATED@) is None,
        },
{
    capped_exec(content, BRAINBOX_LOAD_CAP, BRAINBOX_TRUNCATED)
}

/// LESSONS.md as injected every session, capped at `LESSONS_LOAD_CAP` bytes.
pub fn lessons_load(content: &str) -> (r: Option<String>)
    ensures
        match r {
            Some(x) => capped_text(content@, LESSONS_LOAD_CAP as nat, LESSONS_TRUNCATED@) == Some(
                x@,
            ),
            None => capped_text(content@, LESSONS_LOAD_CAP as nat, LESSONS_TRUNCATED@) is None,
        },
{
    capped_exec(content, LESSONS_LOAD_CAP, LESSONS_TRUNCATED)
}

// ---------------------------------------------------------------------------
// The refresher's input
// ---------------------------------------------------------------------------

/// The messages that are not system messages, in order.
pub open spec fn non_system(ms: Seq<MessageView>) -> Seq<MessageView>
    decreases ms.len(),
{
    if ms.len() == 0 {
        Seq::empty()
    } else if ms.last().role == Role::System {
        non_system(ms.drop_last())
    } else {
        non_system(ms.drop_last()).push(ms.last())
    }
}

pub open spec fn role_label(r: Role) -> Seq<char> {
    match r {
        Role::User => "USER"@,
        Role::Assistant => "ASSISTANT"@,
        Role::Tool => "TOOL RESULT"@,
        Role::System => ""@,
    }
}

pub open spec fn unbreak(c: char) -> char {
    if c == '\n' {
        ' '
    } else {
        c
    }
}

/// `s` on one line: every newline replaced by a space.
pub open spec fn one_line(s: Seq<char>) -> Seq<char> {
    s.map_values(|c: char| unbreak(c))
}

/// A message's text in the transcript: on one line, cut to
/// `SNAPSHOT_CHARS_PER_MESSAGE` bytes with ` […]` when longer.
pub open spec fn snapshot_text(content: Seq<char>) -> Seq<char> {
    let flat = one_line(content);
    if byte_len(flat) > SNAPSHOT_CHARS_PER_MESSAGE {
        byte_cut(flat, SNAPSHOT_CHARS_PER_MESSAGE as nat) + " […]"@
    } else {
        flat
    }
}

/// One `[LABEL calls name]` line per tool call.
pub open spec fn call_lines(label: Seq<char>, calls: Seq<ToolCallView>) -> Seq<char>
    decreases calls.len(),
{
    if calls.len() == 0 {
        Seq::empty()
    } else {
        call_lines(label, calls.drop_last()) + "["@ + label + " calls "@ + calls.last().name + "]\n"@
    }
}

/// A message in the transcript: its tool calls, then `[LABEL] text` unless
/// the text is blank.
pub open spec fn entry_text(m: MessageView) -> Seq<char> {
    let label = role_label(m.role);
    let content = snapshot_text(m.content);
    call_lines(label, m.tool_calls) + if trim(content).len() > 0 {
        "["@ + label + "] "@ + content + "\n"@
    } else {
        Seq::empty()
    }
}

pub open spec fn entries_text(ms: Seq<MessageView>) -> Seq<char>
    decreases ms.len(),
{
    if ms.len() == 0 {
        Seq::empty()
    } else {
        entries_text(ms.drop_last()) + entry_text(ms.last())
    }
}

/// The transcript the refresher sees: the last `SNAPSHOT_MESSAGES`
/// non-system messages, oldest first.
pub open spec fn transcript_text(ms: Seq<MessageView>) -> Seq<char> {
    let ns = non_system(ms);
    let from = if ns.len() > SNAPSHOT_MESSAGES {
        ns.len() - SNAPSHOT_MESSAGES
    } else {
        0
    };
    entries_text(ns.skip(from))
}

fn label_exec(r: Role) -> (s: &'static str)
    ensures
        s@ == role_label(r),
{
    match r {
        Role::User => "USER",
        Role::Assistant => "ASSISTANT",
        Role::Tool => "TOOL RESULT",
        Role::System => "",
    }
}

fn snapshot_exec(content: &str) -> (r: Vec<char>)
    ensures
        r@ == snapshot_text(content@),
{
    let c = to_chars(content);
    let mut flat: Vec<char> = Vec::new();
    let mut i: usize = 0;
    while i < c.len()
        invariant
            i <= c@.len(),
            c@ == content@,
            flat@ == one_line(c@.take(i as int)),
        decreases c@.len() - i,
    {
        let ch = c[i];
        flat.push(if ch == '\n' {
            ' '
        } else {
            ch
        });
        assert(one_line(c@.take(i + 1)) =~= one_line(c@.take(i as int)).push(unbreak(c@[i as int])));
        i = i + 1;
    }
    assert(c@.take(c@.len() as int) =~= c@);
    let k = crate::text::byte_prefix_len(flat.as_slice(), SNAPSHOT_CHARS_PER_MESSAGE);
    assert(flat@.take(flat@.len() as int) =~= flat@);
    if k < flat.len() {
        proof {
            crate::text::lemma_byte_len_take_mono(flat@, k + 1 as int, flat@.len() as int);
        }
        let mut v = byte_cut_exec(flat.as_slice(), SNAPSHOT_CHARS_PER_MESSAGE);
        extend_str(&mut v, " […]");
        v
    } else {
        flat
    }
}

fn entry_exec(out: &mut Vec<char>, m: &Message)
    ensures
        final(out)@ == old(out)@ + entry_text(m@),
{
    let label = label_exec(m.role);
    let ghost calls = m@.tool_calls;
    let mut j: usize = 0;
    let ghost start = out@;
    while j < m.tool_calls.len()
        invariant
            j <= m.tool_calls@.len(),
            calls == m@.tool_calls,
            calls.len() == m.tool_calls@.len(),
            label@ == role_label(m.role),
            out@ == start + call_lines(label@, calls.take(j as int)),
        decreases m.tool_calls@.len() - j,
    {
        extend_str(out, "[");
        extend_str(out, label);
        extend_str(out, " calls ");
        extend_str(out, m.tool_calls[j].name.as_str());
        extend_str(out, "]\n");
        assert(calls.take(j + 1).drop_last() =~= calls.take(j as int));
        assert(calls.take(j + 1).last() == m.tool_calls@[j as int]@);
        j = j + 1;
    }
    assert(calls.take(calls.len() as int) =~= calls);
    let content = snapshot_exec(m.content.as_str());
    let t = trim_exec(content.as_slice());
    if t.len() > 0 {
        extend_str(out, "[");
        extend_str(out, label);
        extend_str(out, "] ");
        extend(out, content.as_slice());
        extend_str(out, "\n");
    }
    assert(out@ =~= start + entry_text(m@));
}

/// Render the recent transcript for a refresher model (see
/// `transcript_text`).
pub fn render_transcript(messages: &[Message]) -> (r: String)
    ensures
        r@ == transcript_text(msg_views(messages@)),
{
    let ghost mv = msg_views(messages@);
    let mut idx: Vec<usize> = Vec::new();
    let mut i: usize = 0;
    while i < messages.len()
        invariant
            i <= messages@.len(),
            mv == msg_views(messages@),
            forall|k: int| 0 <= k < idx@.len() ==> idx@[k] < messages@.len(),
            idx@.map_values(|k: usize| mv[k as int]) == non_system(mv.take(i as int)),
        decreases messages@.len() - i,
    {
        assert(mv.take(i + 1).drop_last() =~= mv.take(i as int));
        assert(mv.take(i + 1).last() == messages@[i as int]@);
        if messages[i].role != Role::System {
            let ghost before = idx@;
            idx.push(i);
            assert(idx@.map_values(|k: usize| mv[k as int]) =~= before.map_values(
                |k: usize| mv[k as int],
            ).push(mv[i as int]));
        }
        i = i + 1;
    }
    assert(mv.take(messages@.len() as int) =~= mv);
    let ghost ns = non_system(mv);
    let from = if idx.len() > SNAPSHOT_MESSAGES {
        idx.len() - SNAPSHOT_MESSAGES
    } else {
        0
    };
    let mut out: Vec<char> = Vec::new();
    let mut j = from;
    while j < idx.len()
        invariant
            from <= j <= idx@.len(),
            idx@.len() == ns.len(),
            forall|k: int| 0 <= k < idx@.len() ==> idx@[k] < messages@.len(),
            forall|k: int| 0 <= k < idx@.len() ==> ns[k] == mv[idx@[k] as int],
            mv == msg_views(messages@),
            out@ == entries_text(ns.subrange(from as int, j as int)),
        decreases idx@.len() - j,
    {
        proof {
            assert(idx@.map_values(|k: usize| mv[k as int])[j as int] == mv[idx@[j as int] as int]);
        }
        entry_exec(&mut out, &messages[idx[j]]);
        assert(ns.subrange(from as int, j + 1).drop_last() =~= ns.subrange(from as int, j as int));
        j = j + 1;
    }
    assert(ns.subrange(from as int, ns.len() as int) =~= ns.skip(from as int));
    from_chars(out.as_slice())
}

/// The prompt that asks for a refreshed BRAINBOX.md.
pub open spec fn update_text(old: Seq<char>, transcript: Seq<char>) -> Seq<char> {
    UPDATE_HEAD@ + (if trim(old).len() == 0 {
        UPDATE_NO_FILE@
    } else {
        old
    }) + TRANSCRIPT_HEAD@ + transcript + PROMPT_TAIL@
}

/// The prompt for a BRAINBOX refresh, from the current file and transcript.
pub fn update_prompt(old: &str, transcript: &str) -> (r: String)
    ensures
        r@ == update_text(old@, transcript@),
{
    let o = to_chars(old);
    let t = trim_exec(o.as_slice());
    let mut v = to_chars(UPDATE_HEAD);
    if t.len() == 0 {
        extend_str(&mut v, UPDATE_NO_FILE);
    } else {
        extend(&mut v, o.as_slice());
    }
    extend_str(&mut v, TRANSCRIPT_HEAD);
    extend_str(&mut v, transcript);
    extend_str(&mut v, PROMPT_TAIL);
    from_chars(v.as_slice())
}

/// The prompt that asks for a conservative LESSONS.md update.
pub open spec fn capture_text(old: Seq<char>, transcript: Seq<char>) -> Seq<char> {
    CAPTURE_HEAD@ + (if trim(old).len() == 0 {
        CAPTURE_NO_FILE@
    } else {
        old
    }) + TRANSCRIPT_HEAD@ + transcript + PROMPT_TAIL@
}

/// The prompt for a lessons capture: only explicit preferences, corrections
/// and recurring mistakes qualify; otherwise the file comes back unchanged.
pub fn capture_prompt(old: &str, transcript: &str) -> (r: String)
    ensures
        r@ == capture_text(old@, transcript@),
{
    let o = to_chars(old);
    let t = trim_exec(o.as_slice());
    let mut v = to_chars(CAPTURE_HEAD);
    if t.len() == 0 {
        extend_str(&mut v, CAPTURE_NO_FILE);
    } else {
        extend(&mut v, o.as_slice());
    }
    extend_str(&mut v, TRANSCRIPT_HEAD);
    extend_str(&mut v, transcript);
    extend_str(&mut v, PROMPT_TAIL);
    from_chars(v.as_slice())
}

// ---------------------------------------------------------------------------
// Accepting the refresher's answer
// ---------------------------------------------------------------------------

/// The model's answer without surrounding whitespace and without a
/// wrapping ```` ``` ```` fence (with or without a `markdown`/`md` tag).
pub open spec fn defenced(text: Seq<char>) -> Seq<char> {
    let t = trim(text);
    if "```"@.is_prefix_of(t) {
        let a = strip_all(strip_all(strip_all(t, "```markdown"@), "```md"@), "```"@);
        let b = match rfind(a, "```"@) {
            Some(e) => a.take(e),
            None => a,
        };
        trim(b)
    } else {
        t
    }
}

fn defence_exec(text: &str) -> (r: Vec<char>)
    ensures
        r@ == defenced(text@),
{
    let c = to_chars(text);
    let t = trim_exec(c.as_slice());
    let fence = to_chars("```");
    if starts_with_exec(t.as_slice(), fence.as_slice()) {
        let md1 = to_chars("```markdown");
        let md2 = to_chars("```md");
        let a1 = strip_all_exec(t.as_slice(), md1.as_slice());
        let a2 = strip_all_exec(a1.as_slice(), md2.as_slice());
        let a = strip_all_exec(a2.as_slice(), fence.as_slice());
        let b = match rfind_exec(a.as_slice(), fence.as_slice()) {
            Some(e) => {
                slice_to_vec(a.as_slice(), 0, e)
            },
            None => slice_to_vec(a.as_slice(), 0, a.len()),
        };
        assert(a@.take(a@.len() as int) =~= a@);
        trim_exec(b.as_slice())
    } else {
        t
    }
}

/// A refreshed BRAINBOX.md is accepted only when it has a `## ` heading;
/// it is stored with one trailing newline.
pub open spec fn brainbox_accepts(text: Seq<char>) -> Option<Seq<char>> {
    let c = defenced(text);
    if c.len() == 0 || !contains(c, "## "@) {
        None
    } else {
        Some(c.push('\n'))
    }
}

/// Accept or refuse a BRAINBOX refresh (see `brainbox_accepts`); a refusal
/// keeps the previous file.
pub fn brainbox_sanitize(text: &str) -> (r: Option<String>)
    ensures
        match r {
            Some(x) => brainbox_accepts(text@) == Some(x@),
            None => brainbox_accepts(text@) is None,
        },
{
    let mut c = defence_exec(text);
    let h = to_chars("## ");
    if c.len() == 0 || !contains_exec(c.as_slice(), h.as_slice()) {
        return None;
    }
    c.push('\n');
    Some(from_chars(c.as_slice()))
}

/// A LESSONS.md update is accepted only when it has a `## Preferences` or
/// `## Rules` heading; a refusal must not wipe the file.
pub open spec fn lessons_accepts(text: Seq<char>) -> Option<Seq<char>> {
    let c = defenced(text);
    if c.len() == 0 || !(contains(c, "## Preferences"@) || contains(c, "## Rules"@)) {
        None
    } else {
        Some(c.push('\n'))
    }
}

/// Accept or refuse a lessons update (see `lessons_accepts`).
pub fn lessons_sanitize(text: &str) -> (r: Option<String>)
    ensures
        match r {
            Some(x) => lessons_accepts(text@) == Some(x@),
            None => lessons_accepts(text@) is None,
        },
{
    let mut c = defence_exec(text);
    let p = to_chars("## Preferences");
    let q = to_chars("## Rules");
    if c.len() == 0 || !(contains_exec(c.as_slice(), p.as_slice()) || contains_exec(
        c.as_slice(),
        q.as_slice(),
    )) {
        return None;
    }
    c.push('\n');
    Some(from_chars(c.as_slice()))
}

/// An accepted lessons file is written only when it differs from the old
/// one beyond surrounding whitespace.
pub fn lessons_changed(content: &str, old: &str) -> (r: bool)
    ensures
        r == (trim(content@) != trim(old@)),
{
    let a = to_chars(content);
    let b = to_chars(old);
    let ta = trim_exec(a.as_slice());
    let tb = trim_exec(b.as_slice());
    !crate::text::chars_eq(ta.as_slice(), tb.as_slice())
}

// ---------------------------------------------------------------------------
// When a refresh is due
// ---------------------------------------------------------------------------

/// One completed turn: `(counter, start)` after it. With a cadence of `0`
/// nothing ever starts; otherwise the counter climbs, and when it reaches
/// the cadence a refresh starts and the counter restarts, unless one is
/// already running.
pub open spec fn tick(every: nat, since: nat, busy: bool) -> (nat, bool) {
    if every == 0 {
        (since, false)
    } else if since + 1 < every || busy {
        (since + 1, false)
    } else {
        (0, true)
    }
}

/// Counter and number of refreshes started after `k` turns with no refresh
/// running, from `since`.
pub open spec fn idle_run(every: nat, since: nat, k: nat) -> (nat, nat)
    decreases k,
{
    if k == 0 {
        (since, 0)
    } else {
        let (s, n) = idle_run(every, since, (k - 1) as nat);
        let (s2, started) = tick(every, s, false);
        (s2, n + if started {
            1nat
        } else {
            0nat
        })
    }
}

/// With a cadence of `n > 0` and nothing running, the refresh starts on the
/// `n`-th completed turn and not before, and the counter starts over.
pub proof fn law_refresh_every_n_turns(n: nat, k: nat)
    requires
        n > 0,
        k <= n,
    ensures
        k < n ==> idle_run(n, 0, k) == (k, 0nat),
        k == n ==> idle_run(n, 0, k) == (0nat, 1nat),
    decreases k,
{
    if k > 0 {
        law_refresh_every_n_turns(n, (k - 1) as nat);
    }
}

/// The project memory's refresh schedule.
pub struct Brainbox {
    pub path: String,
    /// Turns between refreshes (at least 1).
    pub update_every_turns: u32,
    pub turns_since_update: u32,
}

impl Brainbox {
    /// A schedule for `<cwd>/.rocinante/BRAINBOX.md`; a cadence of `0`
    /// counts as `1`.
    pub fn new(cwd: &str, update_every_turns: u32) -> (b: Brainbox)
        ensures
            b.path@ == brainbox_path(cwd@),
            b.update_every_turns == if update_every_turns == 0 {
                1
            } else {
                update_every_turns
            },
            b.turns_since_update == 0,
    {
        Brainbox {
            path: path_for(cwd),
            update_every_turns: if update_every_turns == 0 {
                1
            } else {
                update_every_turns
            },
            turns_since_update: 0,
        }
    }

    /// `/clear --all`: the file is removed and the count starts over.
    pub fn clear(&mut self)
        ensures
            final(self).turns_since_update == 0,
            final(self).path == old(self).path,
            final(self).update_every_turns == old(self).update_every_turns,
    {
        self.turns_since_update = 0;
    }

    /// After each completed turn: whether to start a background refresh now
    /// (see `tick`). `busy` says a refresh is already running; one never
    /// starts on top of another.
    pub fn note_turn(&mut self, busy: bool) -> (start: bool)
        requires
            old(self).turns_since_update < u32::MAX,
        ensures
            (final(self).turns_since_update as nat, start) == tick(
                if old(self).update_every_turns == 0 {
                    1nat
                } else {
                    old(self).update_every_turns as nat
                },
                old(self).turns_since_update as nat,
                busy,
            ),
            start ==> !busy,
            final(self).path == old(self).path,
            final(self).update_every_turns == old(self).update_every_turns,
    {
        self.turns_since_update = self.turns_since_update + 1;
        if self.turns_since_update < self.update_every_turns {
            return false;
        }
        if busy {
            return false;
        }
        self.turns_since_update = 0;
        true
    }
}

/// The global lessons' capture schedule: periodic when the cadence is
/// positive, and always once more at session end unless the file already
/// covers every turn.
pub struct Lessons {
    pub path: String,
    /// Turns between periodic captures; `0` captures at session end only.
    pub update_every_turns: u32,
    pub turns_since_update: u32,
    /// Turns completed this session.
    pub turn_count: u64,
    /// The latest turn a finished capture has covered.
    pub completed_turn: u64,
}

impl Lessons {
    /// A schedule for the lessons file at `path`, or `LESSONS.md` when
    /// there is no home directory.
    pub fn new(path: Option<&str>, update_every_turns: u32) -> (l: Lessons)
        ensures
            l.path@ == match path {
                Some(p) => p@,
                None => LESSONS_FILE_NAME@,
            },
            l.update_every_turns == update_every_turns,
            l.turns_since_update == 0,
            l.turn_count == 0,
            l.completed_turn == 0,
    {
        Lessons {
            path: match path {
                Some(p) => crate::text::own(p),
                None => crate::text::own(LESSONS_FILE_NAME),
            },
            update_every_turns,
            turns_since_update: 0,
            turn_count: 0,
            completed_turn: 0,
        }
    }

    /// After each completed turn: count it, and say whether to start a
    /// periodic capture (see `tick`; never with a cadence of `0`, never on
    /// top of a running one).
    pub fn note_turn(&mut self, busy: bool) -> (start: bool)
        requires
            old(self).turn_count < u64::MAX,
            old(self).turns_since_update < u32::MAX,
        ensures
            final(self).turn_count == old(self).turn_count + 1,
            (final(self).turns_since_update as nat, start) == tick(
                old(self).update_every_turns as nat,
                old(self).turns_since_update as nat,
                busy,
            ),
            start ==> !busy,
            final(self).completed_turn == old(self).completed_turn,
            final(self).path == old(self).path,
            final(self).update_every_turns == old(self).update_every_turns,
    {
        self.turn_count = self.turn_count + 1;
        if self.update_every_turns == 0 {
            return false;
        }
        self.turns_since_update = self.turns_since_update + 1;
        if self.turns_since_update < self.update_every_turns {
            return false;
        }
        if busy {
            return false;
        }
        self.turns_since_update = 0;
        true
    }

    /// At session end, once no capture is running: a final pass is due
    /// unless a finished capture already covered every turn.
    pub fn final_pass_due(&self) -> (r: bool)
        ensures
            r == (self.completed_turn < self.turn_count),
    {
        self.completed_turn < self.turn_count
    }

    /// A capture that saw the transcript up to turn `snapshot` finished.
    pub fn capture_done(&mut self, snapshot: u64)
        ensures
            final(self).completed_turn == if snapshot > old(self).completed_turn {
                snapshot
            } else {
                old(self).completed_turn
            },
            final(self).turn_count == old(self).turn_count,
            final(self).turns_since_update == old(self).turns_since_update,
            final(self).path == old(self).path,
            final(self).update_every_turns == old(self).update_every_turns,
    {
        if snapshot > self.completed_turn {
            self.completed_turn = snapshot;
        }
    }
}

} // verus!
