//! The plain-terminal frontend's decisions: what a typed line asks for,
//! the `/loop` forms, the answers to the plan-exit and permission prompts,
//! the first-run model menu, and what each agent event prints.
use vstd::prelude::*;

use crate::agent::PermissionDecision;
use crate::permissions::Mode;
use crate::terminal::{sanitize_terminal, sanitized};
use crate::text::{
    decimal, extend, extend_str, from_chars, is_ws, is_ws_exec, lines, lines_exec, lower, lower_char_exec,
    parse_unsigned, parse_unsigned_exec, push_decimal, slice_to_vec, str_eq, to_chars, trim, trim_exec,
};

verus! {

// ---------------------------------------------------------------------------
// Commands
// ---------------------------------------------------------------------------

/// The first whitespace character of `s`.
pub open spec fn first_ws(s: Seq<char>) -> Option<int> {
    if exists|k: int| 0 <= k < s.len() && is_ws(s[k]) {
        Some(choose|k: int| 0 <= k < s.len() && is_ws(s[k]) && forall|j: int| 0 <= j < k ==> !is_ws(#[trigger] s[j]))
    } else {
        None
    }
}

/// `split_once(char::is_whitespace)` with the rest trimmed: the command
/// word and its argument.
pub open spec fn split_command(s: Seq<char>) -> (Seq<char>, Seq<char>) {
    match first_ws(s) {
        Some(k) => (s.take(k), trim(s.skip(k + 1))),
        None => (s, Seq::empty()),
    }
}

/// A whitespace-separated word of `s`.
pub open spec fn has_word(s: Seq<char>, w: Seq<char>) -> bool {
    exists|i: int|
        0 <= i && i + w.len() <= s.len() && #[trigger] s.subrange(i, i + w.len()) == w && (i == 0 || is_ws(
            s[i - 1],
        )) && (i + w.len() == s.len() || is_ws(s[i + w.len()]))
}

/// What a typed line asks for.
#[derive(Debug, Clone, PartialEq, Eq)]
pub enum ReplCommand {
    /// Nothing typed.
    Empty,
    Quit,
    /// Set the mode, or just show it.
    Mode(Option<Mode>),
    UnknownMode(String),
    /// List the models, or switch to one.
    Model(String),
    Loop(LoopCommand),
    Config(String),
    Init,
    Commit,
    Compact,
    Clear { all: bool },
    ClearUsage,
    Update,
    Uninstall { confirmed: bool, purge: bool },
    Remember(String),
    RememberUsage,
    Verify,
    Trust,
    /// Set thinking on or off, or just show it.
    Think(Option<bool>),
    UnknownThink(String),
    /// Show, clear or pin the subagent model.
    Submodel(String),
    /// Set the effort tier (text to parse), or just show it.
    Effort(String),
    /// A turn for the agent.
    Submit(String),
}

/// The forms of `/loop`.
#[derive(Debug, Clone, PartialEq, Eq)]
pub enum LoopCommand {
    Show,
    Stop,
    Arm { interval: String, prompt: String },
    Usage,
}

pub open spec fn loop_spec(arg: Seq<char>) -> (int, Seq<char>, Seq<char>) {
    if arg.len() == 0 {
        (0, Seq::empty(), Seq::empty())
    } else if arg == "stop"@ {
        (1, Seq::empty(), Seq::empty())
    } else {
        let (spec, prompt) = split_command(arg);
        if prompt.len() == 0 {
            (3, Seq::empty(), Seq::empty())
        } else {
            (2, spec, prompt)
        }
    }
}

pub open spec fn loop_view(l: LoopCommand) -> (int, Seq<char>, Seq<char>) {
    match l {
        LoopCommand::Show => (0, Seq::empty(), Seq::empty()),
        LoopCommand::Stop => (1, Seq::empty(), Seq::empty()),
        LoopCommand::Arm { interval, prompt } => (2, interval@, prompt@),
        LoopCommand::Usage => (3, Seq::empty(), Seq::empty()),
    }
}

/// The command a line asks for (the line is trimmed first).
pub open spec fn command_spec(line: Seq<char>, c: ReplCommand) -> bool {
    let t = trim(line);
    let (cmd, arg) = split_command(t);
    if t.len() == 0 {
        c == ReplCommand::Empty
    } else if t == "/quit"@ || t == "/exit"@ {
        c == ReplCommand::Quit
    } else if cmd == "/mode"@ {
        if arg == "normal"@ {
            c == ReplCommand::Mode(Some(Mode::Normal))
        } else if arg == "auto"@ {
            c == ReplCommand::Mode(Some(Mode::Auto))
        } else if arg == "plan"@ {
            c == ReplCommand::Mode(Some(Mode::Plan))
        } else if arg.len() == 0 {
            c == ReplCommand::Mode(None)
        } else {
            c matches ReplCommand::UnknownMode(a) && a@ == arg
        }
    } else if cmd == "/model"@ {
        c matches ReplCommand::Model(a) && a@ == arg
    } else if cmd == "/loop"@ {
        c matches ReplCommand::Loop(l) && loop_view(l) == loop_spec(arg)
    } else if cmd == "/config"@ {
        c matches ReplCommand::Config(a) && a@ == arg
    } else if cmd == "/init"@ {
        c == ReplCommand::Init
    } else if cmd == "/commit"@ {
        c == ReplCommand::Commit
    } else if cmd == "/compact"@ {
        c == ReplCommand::Compact
    } else if cmd == "/clear"@ {
        if arg.len() == 0 {
            c == ReplCommand::Clear { all: false }
        } else if arg == "--all"@ {
            c == ReplCommand::Clear { all: true }
        } else {
            c == ReplCommand::ClearUsage
        }
    } else if cmd == "/update"@ {
        c == ReplCommand::Update
    } else if cmd == "/uninstall"@ {
        c == ReplCommand::Uninstall { confirmed: has_word(arg, "confirm"@), purge: has_word(arg, "--purge"@) }
    } else if cmd == "/remember"@ {
        if arg.len() == 0 {
            c == ReplCommand::RememberUsage
        } else {
            c matches ReplCommand::Remember(a) && a@ == arg
        }
    } else if cmd == "/verify"@ {
        c == ReplCommand::Verify
    } else if cmd == "/trust"@ {
        c == ReplCommand::Trust
    } else if cmd == "/think"@ {
        if arg == "on"@ {
            c == ReplCommand::Think(Some(true))
        } else if arg == "off"@ {
            c == ReplCommand::Think(Some(false))
        } else if arg.len() == 0 {
            c == ReplCommand::Think(None)
        } else {
            c matches ReplCommand::UnknownThink(a) && a@ == arg
        }
    } else if cmd == "/submodel"@ {
        c matches ReplCommand::Submodel(a) && a@ == arg
    } else if cmd == "/effort"@ {
        c matches ReplCommand::Effort(a) && a@ == arg
    } else {
        c matches ReplCommand::Submit(a) && a@ == t
    }
}

fn first_ws_exec(s: &[char]) -> (r: Option<usize>)
    ensures
        match r {
            Some(k) => first_ws(s@) == Some(k as int) && k < s@.len(),
            None => first_ws(s@) is None,
        },
{
    let mut k: usize = 0;
    while k < s.len()
        invariant
            k <= s@.len(),
            forall|j: int| 0 <= j < k ==> !is_ws(#[trigger] s@[j]),
        decreases s@.len() - k,
    {
        if is_ws_exec(s[k]) {
            proof {
                let w = choose|q: int| 0 <= q < s@.len() && is_ws(s@[q]) && forall|j: int| 0 <= j < q ==> !is_ws(#[trigger] s@[j]);
                if w < k {
                    assert(!is_ws(s@[w]));
                } else if w > k {
                    assert(!is_ws(s@[k as int]));
                }
            }
            return Some(k);
        }
        k = k + 1;
    }
    None
}

fn split_command_exec(s: &[char]) -> (r: (Vec<char>, Vec<char>))
    ensures
        (r.0@, r.1@) == split_command(s@),
{
    match first_ws_exec(s) {
        Some(k) => {
            let n = s.len();
            let cmd = slice_to_vec(s, 0, k);
            let rest = slice_to_vec(s, k + 1, n);
            assert(cmd@ =~= s@.take(k as int));
            assert(rest@ =~= s@.skip(k + 1));
            (cmd, trim_exec(rest.as_slice()))
        },
        None => (slice_to_vec(s, 0, s.len()), Vec::new()),
    }
}

fn has_word_exec(s: &[char], w: &str) -> (r: bool)
    requires
        w@.len() > 0,
    ensures
        r == has_word(s@, w@),
{
    let wc = to_chars(w);
    let n = s.len();
    let m = wc.len();
    if m > n {
        return false;
    }
    let mut i: usize = 0;
    let last = n - m;
    while i <= last
        invariant
            last == n - m,
            i <= last + 1,
            0 < m <= n,
            n == s@.len(),
            m == wc@.len(),
            wc@ == w@,
            forall|j: int|
                0 <= j < i ==> !(j + w@.len() <= s@.len() && #[trigger] s@.subrange(j, j + w@.len()) == w@ && (j == 0
                    || is_ws(s@[j - 1])) && (j + w@.len() == s@.len() || is_ws(s@[j + w@.len()]))),
        decreases last + 1 - i,
    {
        let piece = slice_to_vec(s, i, i + m);
        let same = crate::text::chars_eq(piece.as_slice(), wc.as_slice());
        let before_ok = i == 0 || is_ws_exec(s[i - 1]);
        let after_ok = i + m == n || is_ws_exec(s[i + m]);
        if same && before_ok && after_ok {
            return true;
        }
        i = i + 1;
    }
    proof {
        assert forall|j: int|
            0 <= j && j + w@.len() <= s@.len() implies !(#[trigger] s@.subrange(j, j + w@.len()) == w@ && (j == 0
            || is_ws(s@[j - 1])) && (j + w@.len() == s@.len() || is_ws(s@[j + w@.len()]))) by {
            assert(j < i);
        }
    }
    false
}

fn string_of(v: &Vec<char>) -> (r: String)
    ensures
        r@ == v@,
{
    from_chars(v.as_slice())
}

fn is(v: &Vec<char>, s: &str) -> (r: bool)
    ensures
        r == (v@ == s@),
{
    let c = to_chars(s);
    crate::text::chars_eq(v.as_slice(), c.as_slice())
}

/// What a `/loop` argument asks for (see `loop_spec`).
pub fn parse_loop(arg: &Vec<char>) -> (r: LoopCommand)
    ensures
        loop_view(r) == loop_spec(arg@),
{
    if arg.len() == 0 {
        LoopCommand::Show
    } else if is(arg, "stop") {
        LoopCommand::Stop
    } else {
        let (spec, prompt) = split_command_exec(arg.as_slice());
        if prompt.len() == 0 {
            LoopCommand::Usage
        } else {
            LoopCommand::Arm { interval: string_of(&spec), prompt: string_of(&prompt) }
        }
    }
}

/// What a typed line asks for (see `command_spec`).
pub fn parse_command(line: &str) -> (r: ReplCommand)
    ensures
        command_spec(line@, r),
{
    let lc = to_chars(line);
    let t = trim_exec(lc.as_slice());
    if t.len() == 0 {
        return ReplCommand::Empty;
    }
    if is(&t, "/quit") || is(&t, "/exit") {
        return ReplCommand::Quit;
    }
    let (cmd, arg) = split_command_exec(t.as_slice());
    if is(&cmd, "/mode") {
        if is(&arg, "normal") {
            ReplCommand::Mode(Some(Mode::Normal))
        } else if is(&arg, "auto") {
            ReplCommand::Mode(Some(Mode::Auto))
        } else if is(&arg, "plan") {
            ReplCommand::Mode(Some(Mode::Plan))
        } else if arg.len() == 0 {
            ReplCommand::Mode(None)
        } else {
            ReplCommand::UnknownMode(string_of(&arg))
        }
    } else if is(&cmd, "/model") {
        ReplCommand::Model(string_of(&arg))
    } else if is(&cmd, "/loop") {
        ReplCommand::Loop(parse_loop(&arg))
    } else if is(&cmd, "/config") {
        ReplCommand::Config(string_of(&arg))
    } else if is(&cmd, "/init") {
        ReplCommand::Init
    } else if is(&cmd, "/commit") {
        ReplCommand::Commit
    } else if is(&cmd, "/compact") {
        ReplCommand::Compact
    } else if is(&cmd, "/clear") {
        if arg.len() == 0 {
            ReplCommand::Clear { all: false }
        } else if is(&arg, "--all") {
            ReplCommand::Clear { all: true }
        } else {
            ReplCommand::ClearUsage
        }
    } else if is(&cmd, "/update") {
        ReplCommand::Update
    } else if is(&cmd, "/uninstall") {
        proof {
            reveal_strlit("confirm");
            reveal_strlit("--purge");
        }
        ReplCommand::Uninstall {
            confirmed: has_word_exec(arg.as_slice(), "confirm"),
            purge: has_word_exec(arg.as_slice(), "--purge"),
        }
    } else if is(&cmd, "/remember") {
        if arg.len() == 0 {
            ReplCommand::RememberUsage
        } else {
            ReplCommand::Remember(string_of(&arg))
        }
    } else if is(&cmd, "/verify") {
        ReplCommand::Verify
    } else if is(&cmd, "/trust") {
        ReplCommand::Trust
    } else if is(&cmd, "/think") {
        if is(&arg, "on") {
            ReplCommand::Think(Some(true))
        } else if is(&arg, "off") {
            ReplCommand::Think(Some(false))
        } else if arg.len() == 0 {
            ReplCommand::Think(None)
        } else {
            ReplCommand::UnknownThink(string_of(&arg))
        }
    } else if is(&cmd, "/submodel") {
        ReplCommand::Submodel(string_of(&arg))
    } else if is(&cmd, "/effort") {
        ReplCommand::Effort(string_of(&arg))
    } else {
        ReplCommand::Submit(string_of(&t))
    }
}

// ---------------------------------------------------------------------------
// Prompts
// ---------------------------------------------------------------------------

/// The plan-exit prompt's answer: `e` runs the plan in normal mode, `a` in
/// auto mode; anything else stays in plan mode.
pub open spec fn plan_choice_spec(answer: Option<Seq<char>>) -> Option<Mode> {
    match answer {
        Some(a) => {
            let t = trim(a);
            if t == "e"@ || t == "E"@ {
                Some(Mode::Normal)
            } else if t == "a"@ || t == "A"@ {
                Some(Mode::Auto)
            } else {
                None
            }
        },
        None => None,
    }
}

/// See `plan_choice_spec`.
pub fn plan_choice(answer: Option<&str>) -> (r: Option<Mode>)
    ensures
        r == plan_choice_spec(
            match answer {
                Some(a) => Some(a@),
                None => None,
            },
        ),
{
    match answer {
        Some(a) => {
            let c = to_chars(a);
            let t = trim_exec(c.as_slice());
            if is(&t, "e") || is(&t, "E") {
                Some(Mode::Normal)
            } else if is(&t, "a") || is(&t, "A") {
                Some(Mode::Auto)
            } else {
                None
            }
        },
        None => None,
    }
}

/// The permission prompt's answer: `y`/`yes` allows once, `a`/`always`
/// always; anything else (any case, surrounding space ignored) denies.
pub open spec fn permission_answer_spec(input: Seq<char>) -> PermissionDecision {
    let t = lower(trim(input));
    if t == "y"@ || t == "yes"@ {
        PermissionDecision::Allow
    } else if t == "a"@ || t == "always"@ {
        PermissionDecision::AlwaysAllow
    } else {
        PermissionDecision::Deny
    }
}

/// See `permission_answer_spec`.
pub fn permission_answer(input: &str) -> (r: PermissionDecision)
    ensures
        r == permission_answer_spec(input@),
{
    let c = to_chars(input);
    let t = trim_exec(c.as_slice());
    let mut l: Vec<char> = Vec::new();
    let mut i: usize = 0;
    while i < t.len()
        invariant
            i <= t@.len(),
            l@ == lower(t@).take(i as int),
            lower(t@).len() == t@.len(),
        decreases t@.len() - i,
    {
        l.push(lower_char_exec(t[i]));
        assert(lower(t@).take(i + 1) =~= lower(t@).take(i as int).push(lower(t@)[i as int]));
        i = i + 1;
    }
    assert(lower(t@).take(t@.len() as int) =~= lower(t@));
    if is(&l, "y") || is(&l, "yes") {
        PermissionDecision::Allow
    } else if is(&l, "a") || is(&l, "always") {
        PermissionDecision::AlwaysAllow
    } else {
        PermissionDecision::Deny
    }
}

/// What a line typed at the first-run model menu does.
#[derive(Debug, Clone, PartialEq, Eq)]
pub enum PickOutcome {
    /// Nothing typed: ask again.
    Again,
    /// A number with no model listed under it: say so and ask again.
    NoOption(usize),
    Chosen(String),
}

/// A number picks the listed model with that number (from 1); another
/// number is refused; any other text is taken as a model name.
pub open spec fn pick_spec(models: Seq<Seq<char>>, line: Seq<char>, r: PickOutcome) -> bool {
    let t = trim(line);
    if t.len() == 0 {
        r == PickOutcome::Again
    } else {
        match parse_unsigned(t, usize::MAX as nat) {
            Some(n) => if 1 <= n <= models.len() {
                r matches PickOutcome::Chosen(m) && m@ == models[n - 1]
            } else {
                r == PickOutcome::NoOption(n as usize)
            },
            None => r matches PickOutcome::Chosen(m) && m@ == t,
        }
    }
}

pub open spec fn str_views(v: Seq<String>) -> Seq<Seq<char>> {
    v.map_values(|s: String| s@)
}

/// See `pick_spec`.
pub fn pick_from_menu(models: &Vec<String>, line: &str) -> (r: PickOutcome)
    ensures
        pick_spec(str_views(models@), line@, r),
{
    let c = to_chars(line);
    let t = trim_exec(c.as_slice());
    if t.len() == 0 {
        return PickOutcome::Again;
    }
    match parse_unsigned_exec(t.as_slice(), usize::MAX as u64) {
        Some(n) => {
            let len = models.len();
            if 1 <= n && n <= len as u64 {
                let k = (n - 1) as usize;
                PickOutcome::Chosen(models[k].clone())
            } else {
                PickOutcome::NoOption(n as usize)
            }
        },
        None => PickOutcome::Chosen(string_of(&t)),
    }
}

pub open spec fn pad2(n: nat) -> Seq<char> {
    if n < 10 {
        seq![' '] + decimal(n)
    } else {
        decimal(n)
    }
}

pub open spec fn menu_models(ms: Seq<Seq<char>>) -> Seq<char>
    decreases ms.len(),
{
    if ms.len() == 0 {
        Seq::empty()
    } else {
        menu_models(ms.drop_last()) + "  "@ + pad2(ms.len()) + ". "@ + ms.last() + "\n"@
    }
}

pub open spec fn menu_providers(ps: Seq<Seq<char>>) -> Seq<char>
    decreases ps.len(),
{
    if ps.len() == 0 {
        Seq::empty()
    } else {
        menu_providers(ps.drop_last()) + "      "@ + ps.last() + "/<model>\n"@
    }
}

/// The first-run model menu: the models numbered from 1, the API providers
/// as `provider/<model>` hints, and the free-form option.
pub open spec fn menu_text(ms: Seq<Seq<char>>, ps: Seq<Seq<char>>) -> Seq<char> {
    "\x1b[1mSelect a model\x1b[0m (remembered for next time):\n"@ + menu_models(ms) + (if ps.len() > 0 {
        "  or type a full model for a configured API provider:\n"@ + menu_providers(ps)
    } else {
        Seq::empty()
    }) + "  or type any provider/model or tag.\n"@
}

/// See `menu_text`.
pub fn model_menu(models: &Vec<String>, providers: &Vec<String>) -> (r: String)
    ensures
        r@ == menu_text(str_views(models@), str_views(providers@)),
{
    let ghost mv = str_views(models@);
    let ghost pv = str_views(providers@);
    let mut v = to_chars("\x1b[1mSelect a model\x1b[0m (remembered for next time):\n");
    let ghost head = v@;
    let mut i: usize = 0;
    while i < models.len()
        invariant
            i <= models@.len(),
            mv == str_views(models@),
            v@ == head + menu_models(mv.take(i as int)),
        decreases models@.len() - i,
    {
        proof {
            assert(mv.take(i + 1).drop_last() =~= mv.take(i as int));
            assert(mv.take(i + 1).last() == models@[i as int]@);
        }
        let ghost before = v@;
        let n = i + 1;
        extend_str(&mut v, "  ");
        if n < 10 {
            v.push(' ');
        }
        push_decimal(&mut v, n as u64);
        extend_str(&mut v, ". ");
        extend_str(&mut v, models[i].as_str());
        extend_str(&mut v, "\n");
        proof {
            if n < 10 {
                assert(pad2(n as nat) =~= seq![' '] + decimal(n as nat));
            }
            assert(v@ =~= before + ("  "@ + pad2((i + 1) as nat) + ". "@ + models@[i as int]@ + "\n"@));
        }
        i = i + 1;
    }
    assert(mv.take(models@.len() as int) =~= mv);
    let ghost mid = v@;
    if providers.len() > 0 {
        extend_str(&mut v, "  or type a full model for a configured API provider:\n");
        let ghost h2 = v@;
        let mut k: usize = 0;
        while k < providers.len()
            invariant
                k <= providers@.len(),
                pv == str_views(providers@),
                v@ == h2 + menu_providers(pv.take(k as int)),
            decreases providers@.len() - k,
        {
            proof {
                assert(pv.take(k + 1).drop_last() =~= pv.take(k as int));
                assert(pv.take(k + 1).last() == providers@[k as int]@);
            }
            let ghost before = v@;
            extend_str(&mut v, "      ");
            extend_str(&mut v, providers[k].as_str());
            extend_str(&mut v, "/<model>\n");
            assert(v@ =~= before + ("      "@ + providers@[k as int]@ + "/<model>\n"@));
            k = k + 1;
        }
        assert(pv.take(providers@.len() as int) =~= pv);
    }
    extend_str(&mut v, "  or type any provider/model or tag.\n");
    from_chars(v.as_slice())
}

// ---------------------------------------------------------------------------
// Printing agent events
// ---------------------------------------------------------------------------

/// The agent events the terminal shows.
pub enum PrintEvent {
    AssistantText(String),
    Thinking(String),
    ToolCallStarted(String),
    ToolFinished { output_preview: String, is_error: bool },
    ToolProgress { call_id: String, chunk: String },
    ContextCompacted { before_tokens: usize, after_tokens: usize },
    VerificationReport { ok: bool, findings: String },
    ModelChanged(String),
    PermissionRequested { summary: String, detail: Option<String> },
    Error(String),
    TurnFinished,
    /// Events the terminal does not show (usage, turn start, ...).
    Other,
}

/// The terminal's state: whether streamed text left the cursor mid-line.
pub struct Printer {
    pub mid_text: bool,
}

/// A newline when streamed text is still open.
pub open spec fn end_text(mid: bool) -> Seq<char> {
    if mid {
        "\n"@
    } else {
        Seq::empty()
    }
}

pub open spec fn first_line_or(s: Seq<char>, none: Seq<char>) -> Seq<char> {
    if lines(s).len() > 0 {
        lines(s)[0]
    } else {
        none
    }
}

/// The colour of a diff line by its first character.
pub open spec fn diff_color(l: Seq<char>) -> Seq<char> {
    if l.len() > 0 && l[0] == '+' {
        "\x1b[32m"@
    } else if l.len() > 0 && l[0] == '-' {
        "\x1b[31m"@
    } else if l.len() > 0 && l[0] == '@' {
        "\x1b[36m"@
    } else {
        "\x1b[90m"@
    }
}

pub open spec fn detail_lines(ls: Seq<Seq<char>>) -> Seq<char>
    decreases ls.len(),
{
    if ls.len() == 0 {
        Seq::empty()
    } else {
        detail_lines(ls.drop_last()) + diff_color(ls.last()) + sanitized(ls.last()) + "\x1b[0m\n"@
    }
}

pub open spec fn starts_task(id: Seq<char>) -> bool {
    "task["@.is_prefix_of(id)
}

/// What an event prints: whether text stays open afterwards, what goes to
/// standard output, and what goes to standard error. Untrusted text is
/// sanitized before it reaches the terminal.
pub open spec fn render_spec(mid: bool, e: PrintEvent) -> (bool, Seq<char>, Seq<char>) {
    match e {
        PrintEvent::AssistantText(d) => (true, sanitized(d@), Seq::empty()),
        PrintEvent::Thinking(d) => (true, "\x1b[2m"@ + sanitized(d@) + "\x1b[0m"@, Seq::empty()),
        PrintEvent::ToolCallStarted(s) => (false, end_text(mid) + "\x1b[36m⏺ "@ + sanitized(s@) + "\x1b[0m\n"@, Seq::empty()),
        PrintEvent::ToolFinished { output_preview, is_error } => (
            false,
            end_text(mid) + (if is_error {
                "\x1b[31m  ✗ "@
            } else {
                "\x1b[32m  ✓ "@
            }) + sanitized(first_line_or(output_preview@, "(no output)"@)) + "\x1b[0m\n"@,
            Seq::empty(),
        ),
        PrintEvent::ToolProgress { call_id, chunk } => if starts_task(call_id@) {
            (false, end_text(mid) + "\x1b[90m    "@ + call_id@ + " "@ + sanitized(chunk@) + "\x1b[0m\n"@, Seq::empty())
        } else {
            (mid, Seq::empty(), Seq::empty())
        },
        PrintEvent::ContextCompacted { before_tokens, after_tokens } => (
            false,
            end_text(mid) + "\x1b[90m[context compacted: ~"@ + decimal(before_tokens as nat) + " → ~"@ + decimal(
                after_tokens as nat,
            ) + " tokens]\x1b[0m\n"@,
            Seq::empty(),
        ),
        PrintEvent::VerificationReport { ok, findings } => (
            false,
            end_text(mid) + if ok {
                "\x1b[90m[verification: matches the ask]\x1b[0m\n"@
            } else {
                "\x1b[33m⚠ verification found gaps:\x1b[0m\n"@ + "\x1b[33m"@ + sanitized(trim(findings@)) + "\x1b[0m\n"@
            },
            Seq::empty(),
        ),
        PrintEvent::ModelChanged(m) => (
            false,
            end_text(mid) + "\x1b[90m[model: "@ + m@ + " — context preserved]\x1b[0m\n"@,
            Seq::empty(),
        ),
        PrintEvent::PermissionRequested { summary, detail } => (
            false,
            end_text(mid) + (match detail {
                Some(d) => detail_lines(lines(d@)),
                None => Seq::empty(),
            }) + "\x1b[33m? "@ + sanitized(summary@) + "\x1b[0m — allow? [y]es / [a]lways / [n]o: "@,
            Seq::empty(),
        ),
        PrintEvent::Error(m) => (false, end_text(mid), "\x1b[31m! "@ + m@ + "\x1b[0m\n"@),
        PrintEvent::TurnFinished => (false, end_text(mid), Seq::empty()),
        PrintEvent::Other => (mid, Seq::empty(), Seq::empty()),
    }
}

fn push_sanitized(v: &mut Vec<char>, s: &str)
    ensures
        final(v)@ == old(v)@ + sanitized(s@),
{
    let t = sanitize_terminal(s);
    extend_str(v, t.as_str());
}

fn push_sanitized_chars(v: &mut Vec<char>, s: &Vec<char>)
    ensures
        final(v)@ == old(v)@ + sanitized(s@),
{
    let t = from_chars(s.as_slice());
    push_sanitized(v, t.as_str());
}

impl Printer {
    pub fn new() -> (p: Printer)
        ensures
            !p.mid_text,
    {
        Printer { mid_text: false }
    }

    /// What an event prints (see `render_spec`): standard output, then
    /// standard error.
    pub fn render(&mut self, e: &PrintEvent) -> (r: (String, String))
        ensures
            render_spec(old(self).mid_text, *e) == (final(self).mid_text, r.0@, r.1@),
    {
        let mid = self.mid_text;
        let mut out: Vec<char> = Vec::new();
        let mut err: Vec<char> = Vec::new();
        match e {
            PrintEvent::AssistantText(d) => {
                push_sanitized(&mut out, d.as_str());
                self.mid_text = true;
            },
            PrintEvent::Thinking(d) => {
                extend_str(&mut out, "\x1b[2m");
                push_sanitized(&mut out, d.as_str());
                extend_str(&mut out, "\x1b[0m");
                self.mid_text = true;
            },
            PrintEvent::ToolCallStarted(s) => {
                if mid {
                    extend_str(&mut out, "\n");
                }
                extend_str(&mut out, "\x1b[36m⏺ ");
                push_sanitized(&mut out, s.as_str());
                extend_str(&mut out, "\x1b[0m\n");
                self.mid_text = false;
            },
            PrintEvent::ToolFinished { output_preview, is_error } => {
                if mid {
                    extend_str(&mut out, "\n");
                }
                if *is_error {
                    extend_str(&mut out, "\x1b[31m  ✗ ");
                } else {
                    extend_str(&mut out, "\x1b[32m  ✓ ");
                }
                let c = to_chars(output_preview.as_str());
                let ls = lines_exec(c.as_slice());
                assert(crate::text::views(ls@) == lines(output_preview@));
                if ls.len() > 0 {
                    assert(ls@[0]@ == lines(output_preview@)[0]);
                    push_sanitized_chars(&mut out, &ls[0]);
                } else {
                    push_sanitized(&mut out, "(no output)");
                }
                extend_str(&mut out, "\x1b[0m\n");
                self.mid_text = false;
            },
            PrintEvent::ToolProgress { call_id, chunk } => {
                let idc = to_chars(call_id.as_str());
                let pre = to_chars("task[");
                if crate::text::starts_with_exec(idc.as_slice(), pre.as_slice()) {
                    if mid {
                        extend_str(&mut out, "\n");
                    }
                    extend_str(&mut out, "\x1b[90m    ");
                    extend_str(&mut out, call_id.as_str());
                    extend_str(&mut out, " ");
                    push_sanitized(&mut out, chunk.as_str());
                    extend_str(&mut out, "\x1b[0m\n");
                    self.mid_text = false;
                }
            },
            PrintEvent::ContextCompacted { before_tokens, after_tokens } => {
                if mid {
                    extend_str(&mut out, "\n");
                }
                extend_str(&mut out, "\x1b[90m[context compacted: ~");
                push_decimal(&mut out, *before_tokens as u64);
                extend_str(&mut out, " → ~");
                push_decimal(&mut out, *after_tokens as u64);
                extend_str(&mut out, " tokens]\x1b[0m\n");
                self.mid_text = false;
            },
            PrintEvent::VerificationReport { ok, findings } => {
                if mid {
                    extend_str(&mut out, "\n");
                }
                if *ok {
                    extend_str(&mut out, "\x1b[90m[verification: matches the ask]\x1b[0m\n");
                } else {
                    extend_str(&mut out, "\x1b[33m⚠ verification found gaps:\x1b[0m\n");
                    extend_str(&mut out, "\x1b[33m");
                    let f = to_chars(findings.as_str());
                    let t = trim_exec(f.as_slice());
                    push_sanitized_chars(&mut out, &t);
                    extend_str(&mut out, "\x1b[0m\n");
                }
                self.mid_text = false;
            },
            PrintEvent::ModelChanged(m) => {
                if mid {
                    extend_str(&mut out, "\n");
                }
                extend_str(&mut out, "\x1b[90m[model: ");
                extend_str(&mut out, m.as_str());
                extend_str(&mut out, " — context preserved]\x1b[0m\n");
                self.mid_text = false;
            },
            PrintEvent::PermissionRequested { summary, detail } => {
                if mid {
                    extend_str(&mut out, "\n");
                }
                match detail {
                    Some(d) => {
                        let dc = to_chars(d.as_str());
                        let ls = lines_exec(dc.as_slice());
                        let ghost lv = crate::text::views(ls@);
                        let ghost head = out@;
                        let mut i: usize = 0;
                        while i < ls.len()
                            invariant
                                i <= ls@.len(),
                                lv == crate::text::views(ls@),
                                out@ == head + detail_lines(lv.take(i as int)),
                            decreases ls@.len() - i,
                        {
                            proof {
                                assert(lv.take(i + 1).drop_last() =~= lv.take(i as int));
                                assert(lv.take(i + 1).last() == ls@[i as int]@);
                            }
                            let l = &ls[i];
                            let ghost before = out@;
                            if l.len() > 0 && l[0] == '+' {
                                extend_str(&mut out, "\x1b[32m");
                            } else if l.len() > 0 && l[0] == '-' {
                                extend_str(&mut out, "\x1b[31m");
                            } else if l.len() > 0 && l[0] == '@' {
                                extend_str(&mut out, "\x1b[36m");
                            } else {
                                extend_str(&mut out, "\x1b[90m");
                            }
                            push_sanitized_chars(&mut out, l);
                            extend_str(&mut out, "\x1b[0m\n");
                            assert(out@ =~= before + diff_color(l@) + sanitized(l@) + "\x1b[0m\n"@);
                            i = i + 1;
                        }
                        assert(lv.take(ls@.len() as int) =~= lv);
                    },
                    None => {},
                }
                extend_str(&mut out, "\x1b[33m? ");
                push_sanitized(&mut out, summary.as_str());
                extend_str(&mut out, "\x1b[0m — allow? [y]es / [a]lways / [n]o: ");
                self.mid_text = false;
            },
            PrintEvent::Error(m) => {
                if mid {
                    extend_str(&mut out, "\n");
                }
                extend_str(&mut err, "\x1b[31m! ");
                extend_str(&mut err, m.as_str());
                extend_str(&mut err, "\x1b[0m\n");
                self.mid_text = false;
            },
            PrintEvent::TurnFinished => {
                if mid {
                    extend_str(&mut out, "\n");
                }
                self.mid_text = false;
            },
            PrintEvent::Other => {},
        }
        proof {
            let (m2, o2, e2) = render_spec(mid, *e);
            assert(out@ =~= o2);
            assert(err@ =~= e2);
        }
        (from_chars(out.as_slice()), from_chars(err.as_slice()))
    }
}

// ---------------------------------------------------------------------------
// Start-up
// ---------------------------------------------------------------------------

/// The start-up mode: the `--mode` flag when given, else the configured
/// default; an unknown name is refused.
pub open spec fn startup_mode_spec(flag: Option<Seq<char>>, default: Mode) -> Result<Mode, Seq<char>> {
    match flag {
        None => Ok(default),
        Some(f) => if f == "normal"@ {
            Ok(Mode::Normal)
        } else if f == "auto"@ {
            Ok(Mode::Auto)
        } else if f == "plan"@ {
            Ok(Mode::Plan)
        } else {
            Err("unknown mode `"@ + f + "` (normal | auto | plan)"@)
        },
    }
}

/// See `startup_mode_spec`.
pub fn startup_mode(flag: Option<&str>, default: Mode) -> (r: Result<Mode, String>)
    ensures
        match (r, startup_mode_spec(
            match flag {
                Some(f) => Some(f@),
                None => None,
            },
            default,
        )) {
            (Ok(a), Ok(b)) => a == b,
            (Err(a), Err(b)) => a@ == b,
            _ => false,
        },
{
    match flag {
        None => Ok(default),
        Some(f) => {
            if str_eq(f, "normal") {
                Ok(Mode::Normal)
            } else if str_eq(f, "auto") {
                Ok(Mode::Auto)
            } else if str_eq(f, "plan") {
                Ok(Mode::Plan)
            } else {
                let mut v = to_chars("unknown mode `");
                extend_str(&mut v, f);
                extend_str(&mut v, "` (normal | auto | plan)");
                Err(from_chars(v.as_slice()))
            }
        },
    }
}

/// Most bytes of `.rocinante/PILOT.md` put into the system prompt.
pub const PILOT_CAP: usize = 8192;

/// The project's PILOT.md as the prompt gets it: nothing when blank; cut
/// to at most 8192 bytes on a character boundary, with a note, when longer.
pub open spec fn pilot_spec(content: Seq<char>) -> Option<Seq<char>> {
    if trim(content).len() == 0 {
        None
    } else if crate::text::byte_len(content) > PILOT_CAP {
        Some(crate::text::byte_cut(content, PILOT_CAP as nat) + "\n[PILOT.md truncated]"@)
    } else {
        Some(content)
    }
}

/// See `pilot_spec`.
pub fn pilot_text(content: &str) -> (r: Option<String>)
    ensures
        crate::model::opt_view(r) == pilot_spec(content@),
{
    let (c, bytes) = crate::text::chars_and_len(content);
    if trim_exec(c.as_slice()).len() == 0 {
        return None;
    }
    if bytes > PILOT_CAP {
        let mut cut = crate::text::byte_cut_exec(c.as_slice(), PILOT_CAP);
        extend_str(&mut cut, "\n[PILOT.md truncated]");
        Some(from_chars(cut.as_slice()))
    } else {
        Some(content.to_string())
    }
}

/// `--model <provider>`: what naming a configured provider means.
#[derive(Debug, Clone, PartialEq, Eq)]
pub enum ProviderFlag {
    /// Not a provider name: resolve it as a model.
    NotProvider,
    /// An Ollama provider: start on the first model it reports.
    FirstOllamaModel,
    /// A cloud provider cannot be listed: the error to show.
    Refused(String),
}

/// See `ProviderFlag`; `providers` are the configured providers.
pub fn provider_flag(name: &str, providers: &Vec<(String, crate::config::ProviderConfig)>) -> (r: ProviderFlag)
    ensures
        match crate::provider_factory::provider_named(providers@, name@) {
            None => r == ProviderFlag::NotProvider,
            Some(p) => if p is Ollama {
                r == ProviderFlag::FirstOllamaModel
            } else {
                r matches ProviderFlag::Refused(m) && m@ == "cloud providers can't be enumerated — use `--model "@
                    + name@ + "/<model-name>`"@
            },
        },
{
    let mut i: usize = 0;
    assert(providers@.skip(0) =~= providers@);
    while i < providers.len()
        invariant
            i <= providers@.len(),
            crate::provider_factory::provider_named(providers@, name@) == crate::provider_factory::provider_named(
                providers@.skip(i as int),
                name@,
            ),
        decreases providers@.len() - i,
    {
        let ghost t = providers@.skip(i as int);
        assert(t[0] == providers@[i as int]);
        assert(t.drop_first() =~= providers@.skip(i + 1));
        if str_eq(providers[i].0.as_str(), name) {
            match &providers[i].1 {
                crate::config::ProviderConfig::Ollama { .. } => {
                    return ProviderFlag::FirstOllamaModel;
                },
                _ => {
                    let mut v = to_chars("cloud providers can't be enumerated — use `--model ");
                    extend_str(&mut v, name);
                    extend_str(&mut v, "/<model-name>`");
                    return ProviderFlag::Refused(from_chars(v.as_slice()));
                },
            }
        }
        i = i + 1;
    }
    assert(providers@.skip(providers@.len() as int) =~= Seq::<(String, crate::config::ProviderConfig)>::empty());
    ProviderFlag::NotProvider
}

/// The prompt of `rocinante ask <words>`: the words joined by spaces; none
/// at all is a usage error.
pub open spec fn ask_prompt_spec(words: Seq<Seq<char>>) -> Result<Seq<char>, Seq<char>> {
    let p = crate::text::join(words, " "@);
    if p.len() == 0 {
        Err("usage: rocinante ask <prompt>"@)
    } else {
        Ok(p)
    }
}

/// See `ask_prompt_spec`.
pub fn ask_prompt(words: &Vec<String>) -> (r: Result<String, String>)
    ensures
        match (r, ask_prompt_spec(str_views(words@))) {
            (Ok(a), Ok(b)) => a@ == b,
            (Err(a), Err(b)) => a@ == b,
            _ => false,
        },
{
    let p = crate::tool_defs::join_strings(words, " ");
    assert(crate::tool_defs::str_views(words@) == str_views(words@));
    if p.as_str().is_empty() {
        Err("usage: rocinante ask <prompt>".to_string())
    } else {
        Ok(p)
    }
}

/// What the start of a resumed session shows.
pub fn resume_notices(info: &crate::session::ResumeInfo) -> (r: Vec<String>)
    ensures
        r@.len() == (if info.mid_turn { 2int } else { 1int }),
        r@[0]@ == "resuming session "@ + info.session_id@ + " ("@ + decimal(info.message_count as nat)
            + " messages)"@,
        info.mid_turn ==> r@[1]@ == MID_TURN_NOTE@,
{
    let mut v = to_chars("resuming session ");
    extend_str(&mut v, info.session_id.as_str());
    extend_str(&mut v, " (");
    push_decimal(&mut v, info.message_count as u64);
    extend_str(&mut v, " messages)");
    let mut r: Vec<String> = Vec::new();
    r.push(from_chars(v.as_slice()));
    if info.mid_turn {
        r.push(MID_TURN_NOTE.to_string());
    }
    r
}

pub const MID_TURN_NOTE: &'static str = "note: previous session ended mid-turn; the model will pick up from the last completed step";

} // verus!
