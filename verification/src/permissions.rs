//! Permission rules written `Tool(matcher)`, and the
//! engine that decides, per tool call, to allow, deny or ask.
//!
//! - `Bash(cargo test:*)` — commands that are "cargo test" or start with
//!   "cargo test " (the `:*` suffix means "and anything after").
//! - `Bash(git status)` — that exact command only.
//! - `Read(./.env)` / `Read(**/*.pem)` — path glob for file tools.
//! - `Edit` — every call to a tool, no matcher.
use vstd::prelude::*;

use crate::text::{
    contains, eq_ignore_case, extend, extend_str, find, from_chars, lower, lower_char_exec,
    slice_to_vec, to_chars, trim, trim_exec,
};

verus! {

/// Session mode.
#[derive(Debug, Clone, Copy, PartialEq, Eq, Structural)]
pub enum Mode {
    Normal,
    Auto,
    Plan,
}

/// Permission class of a tool.
#[derive(Debug, Clone, Copy, PartialEq, Eq, Structural)]
pub enum ToolKind {
    /// Reads files or metadata; never changes state.
    ReadOnly,
    /// Creates or modifies files inside the workspace.
    Edit,
    /// Runs arbitrary commands.
    Execute,
    /// Spawns subagents.
    Spawn,
}

/// The arguments of a tool call that rules look at.
#[derive(Debug, Clone, PartialEq, Eq)]
pub struct ToolArgs {
    /// `command` string argument (bash).
    pub command: Option<String>,
    /// `path` string argument (file tools).
    pub path: Option<String>,
}

pub struct ToolArgsView {
    pub command: Option<Seq<char>>,
    pub path: Option<Seq<char>>,
}

impl View for ToolArgs {
    type V = ToolArgsView;

    open spec fn view(&self) -> ToolArgsView {
        ToolArgsView {
            command: crate::model::opt_view(self.command),
            path: crate::model::opt_view(self.path),
        }
    }
}

/// `[permissions]`: rule strings like "Bash(cargo test:*)".
#[derive(Debug, Clone, Default)]
pub struct PermissionsConfig {
    pub allow: Vec<String>,
    pub deny: Vec<String>,
}

#[derive(Debug, Clone, PartialEq, Eq)]
pub struct Rule {
    pub tool: String,
    /// None = matches every call to the tool.
    pub matcher: Option<String>,
}

pub struct RuleView {
    pub tool: Seq<char>,
    pub matcher: Option<Seq<char>>,
}

impl View for Rule {
    type V = RuleView;

    open spec fn view(&self) -> RuleView {
        RuleView { tool: self.tool@, matcher: crate::model::opt_view(self.matcher) }
    }
}

/// How many times `c` occurs in `s`.
pub open spec fn char_count(s: Seq<char>, c: char) -> nat
    decreases s.len(),
{
    if s.len() == 0 {
        0
    } else {
        char_count(s.drop_last(), c) + if s.last() == c {
            1nat
        } else {
            0nat
        }
    }
}

fn char_count_exec(s: &[char], c: char) -> (n: usize)
    ensures
        n as nat == char_count(s@, c),
{
    let mut n: usize = 0;
    let mut i: usize = 0;
    while i < s.len()
        invariant
            i <= s@.len(),
            n as nat == char_count(s@.take(i as int), c),
            n <= i,
        decreases s@.len() - i,
    {
        assert(s@.take(i + 1).drop_last() =~= s@.take(i as int));
        if s[i] == c {
            n = n + 1;
        }
        i = i + 1;
    }
    assert(s@.take(s@.len() as int) =~= s@);
    n
}

/// How a rule string parses, if it does: unbalanced parentheses are
/// malformed.
pub open spec fn parse_rule(s: Seq<char>) -> Option<RuleView> {
    let t = trim(s);
    if char_count(t, '(') != char_count(t, ')') {
        None
    } else {
        parse_balanced(t)
    }
}

/// How a trimmed rule string with as many `(` as `)` parses.
pub open spec fn parse_balanced(t: Seq<char>) -> Option<RuleView> {
    match find(t, seq!['(']) {
        None => if t.len() == 0 || contains(t, seq![')']) {
            None
        } else {
            Some(RuleView { tool: t, matcher: None })
        },
        Some(i) => {
            let tool = t.take(i);
            let rest = t.skip(i + 1);
            if rest.len() == 0 || rest.last() != ')' || tool.len() == 0 {
                None
            } else {
                Some(RuleView { tool, matcher: Some(rest.drop_last()) })
            }
        },
    }
}

/// Whether a bash command is covered by a matcher: `prefix:*` covers the
/// prefix itself and anything after it and a space; otherwise the command
/// must equal the matcher (both trimmed).
pub open spec fn command_matches(matcher: Seq<char>, command: Seq<char>) -> bool {
    let c = trim(command);
    if matcher.len() >= 2 && matcher.subrange(matcher.len() - 2, matcher.len() as int) == ":*"@ {
        let prefix = trim(matcher.take(matcher.len() - 2));
        c == prefix || (prefix + seq![' ']).is_prefix_of(c)
    } else {
        c == trim(matcher)
    }
}

/// What the glob `pattern` matches, as `globset` decides it (a pattern that
/// does not compile matches nothing).
pub uninterp spec fn glob_match(pattern: Seq<char>, path: Seq<char>) -> bool;

/// Whether rule `r` covers a call of `name` with `args`.
pub open spec fn rule_matches(r: RuleView, name: Seq<char>, args: ToolArgsView) -> bool {
    if !eq_ignore_case(r.tool, name) {
        false
    } else {
        match r.matcher {
            None => true,
            Some(m) => if lower(name) == "bash"@ {
                command_matches(
                    m,
                    match args.command {
                        Some(c) => c,
                        None => Seq::empty(),
                    },
                )
            } else {
                glob_match(
                    m,
                    match args.path {
                        Some(p) => p,
                        None => Seq::empty(),
                    },
                )
            },
        }
    }
}

/// `globset`: does `pattern` (built with `literal_separator(false)`, then
/// compiled through `GlobSetBuilder::build`, which reports a regex over the
/// size limit as an error) match `path`? A pattern that fails to build or
/// compile matches nothing. The answer depends on the two strings alone.
#[verifier::external_body]
pub(crate) fn glob_is_match(pattern: &str, path: &str) -> (r: bool)
    ensures
        r == glob_match(pattern@, path@),
{
    match globset::GlobBuilder::new(pattern).literal_separator(false).build() {
        Ok(glob) => match globset::GlobSetBuilder::new().add(glob).build() {
            Ok(set) => set.is_match(path),
            Err(_) => false,
        },
        Err(_) => false,
    }
}

/// Index of the first `c` in `s`.
fn find_char(s: &[char], c: char) -> (r: Option<usize>)
    ensures
        match r {
            Some(i) => find(s@, seq![c]) == Some(i as int) && crate::text::is_first_match(
                s@,
                seq![c],
                i as int,
            ),
            None => find(s@, seq![c]) is None,
        },
{
    let pat = vec![c];
    assert(pat@ =~= seq![c]);
    crate::text::find_exec(s, pat.as_slice())
}

fn lower_exec(s: &[char]) -> (r: Vec<char>)
    ensures
        r@ == lower(s@),
{
    let mut r: Vec<char> = Vec::new();
    let mut i: usize = 0;
    while i < s.len()
        invariant
            i <= s@.len(),
            r@ =~= lower(s@.take(i as int)),
        decreases s@.len() - i,
    {
        r.push(lower_char_exec(s[i]));
        i = i + 1;
    }
    assert(s@.take(s@.len() as int) =~= s@);
    r
}

/// `str::eq_ignore_ascii_case`.
pub fn eq_ignore_case_exec(a: &[char], b: &[char]) -> (r: bool)
    ensures
        r == eq_ignore_case(a@, b@),
{
    let x = lower_exec(a);
    let y = lower_exec(b);
    crate::text::chars_eq(x.as_slice(), y.as_slice())
}

/// `command_matches` on character slices.
fn command_matches_exec(matcher: &[char], command: &[char]) -> (r: bool)
    ensures
        r == command_matches(matcher@, command@),
{
    let c = trim_exec(command);
    let n = matcher.len();
    if n >= 2 && matcher[n - 2] == ':' && matcher[n - 1] == '*' {
        assert(matcher@.subrange(n - 2, n as int) =~= ":*"@) by {
            reveal_strlit(":*");
        }
        let head = slice_to_vec(matcher, 0, n - 2);
        let prefix = trim_exec(head.as_slice());
        let mut spaced = prefix.clone();
        spaced.push(' ');
        crate::text::chars_eq(c.as_slice(), prefix.as_slice()) || crate::text::starts_with_exec(
            c.as_slice(),
            spaced.as_slice(),
        )
    } else {
        proof {
            reveal_strlit(":*");
            if n >= 2 {
                assert(matcher@.subrange(n - 2, n as int) != ":*"@) by {
                    if matcher@[n - 2] != ':' {
                        assert(matcher@.subrange(n - 2, n as int)[0] != ":*"@[0]);
                    } else {
                        assert(matcher@.subrange(n - 2, n as int)[1] != ":*"@[1]);
                    }
                }
            }
        }
        let m = trim_exec(matcher);
        crate::text::chars_eq(c.as_slice(), m.as_slice())
    }
}

impl Rule {
    /// Parse "Bash(cargo test:*)" / "Edit" style strings. None on malformed
    /// input: unbalanced parentheses, empty, a `)` with no `(`, no closing
    /// `)`, or an empty tool name.
    pub fn parse(s: &str) -> (r: Option<Rule>)
        ensures
            match r {
                Some(rule) => parse_rule(s@) == Some(rule@),
                None => parse_rule(s@) is None,
            },
    {
        let all = to_chars(s);
        let t = trim_exec(all.as_slice());
        if char_count_exec(t.as_slice(), '(') != char_count_exec(t.as_slice(), ')') {
            return None;
        }
        match find_char(t.as_slice(), '(') {
            None => {
                if t.len() == 0 || find_char(t.as_slice(), ')').is_some() {
                    proof {
                        if t@.len() != 0 {
                            assert(contains(t@, seq![')']));
                        }
                    }
                    None
                } else {
                    Some(Rule { tool: from_chars(t.as_slice()), matcher: None })
                }
            },
            Some(i) => {
                assert(crate::text::matches_at(t@, seq!['('], i as int));
                assert(i < t.len());
                let tool = slice_to_vec(t.as_slice(), 0, i);
                let rest = slice_to_vec(t.as_slice(), i + 1, t.len());
                assert(tool@ =~= t@.take(i as int));
                assert(rest@ =~= t@.skip(i + 1));
                if rest.len() == 0 || rest[rest.len() - 1] != ')' || tool.len() == 0 {
                    None
                } else {
                    let m = slice_to_vec(rest.as_slice(), 0, rest.len() - 1);
                    assert(m@ =~= rest@.drop_last());
                    Some(Rule { tool: from_chars(tool.as_slice()), matcher: Some(from_chars(m.as_slice())) })
                }
            },
        }
    }

    /// Whether this rule covers a call of `tool_name` with `args`. The tool
    /// name compares ignoring ASCII case; bash matchers test the `command`
    /// argument, every other tool's matcher globs the `path` argument
    /// (a missing argument counts as empty).
    pub fn matches(&self, tool_name: &str, args: &ToolArgs) -> (r: bool)
        ensures
            r == rule_matches(self@, tool_name@, args@),
    {
        let rt = to_chars(self.tool.as_str());
        let nt = to_chars(tool_name);
        if !eq_ignore_case_exec(rt.as_slice(), nt.as_slice()) {
            return false;
        }
        match &self.matcher {
            None => true,
            Some(m) => {
                let lname = lower_exec(nt.as_slice());
                let bash = to_chars("bash");
                if crate::text::chars_eq(lname.as_slice(), bash.as_slice()) {
                    let mc = to_chars(m.as_str());
                    let command: Vec<char> = match &args.command {
                        Some(c) => to_chars(c.as_str()),
                        None => Vec::new(),
                    };
                    command_matches_exec(mc.as_slice(), command.as_slice())
                } else {
                    match &args.path {
                        Some(p) => glob_is_match(m.as_str(), p.as_str()),
                        None => {
                            proof {
                                reveal_strlit("");
                            }
                            assert(""@ =~= Seq::<char>::empty());
                            glob_is_match(m.as_str(), "")
                        },
                    }
                }
            },
        }
    }
}

/// What the engine decides for one call.
#[derive(Debug, Clone, PartialEq, Eq)]
pub enum Decision {
    Allow,
    Deny { reason: String },
    Ask,
}

pub enum DecisionView {
    Allow,
    Deny { reason: Seq<char> },
    Ask,
}

impl View for Decision {
    type V = DecisionView;

    open spec fn view(&self) -> DecisionView {
        match self {
            Decision::Allow => DecisionView::Allow,
            Decision::Deny { reason } => DecisionView::Deny { reason: reason@ },
            Decision::Ask => DecisionView::Ask,
        }
    }
}

pub const PLAN_DENY: &'static str = "plan mode is read-only; describe this step in your plan instead of executing it";

pub struct PermissionEngine {
    pub allow: Vec<Rule>,
    pub deny: Vec<Rule>,
    /// "Always allow" answers accumulated this session.
    pub session_allow: Vec<Rule>,
}

pub open spec fn rule_views(r: Seq<Rule>) -> Seq<RuleView> {
    r.map_values(|x: Rule| x@)
}

/// The rules that the strings `s` parse to, malformed ones skipped.
pub open spec fn parse_rules(s: Seq<Seq<char>>) -> Seq<RuleView>
    decreases s.len(),
{
    if s.len() == 0 {
        Seq::empty()
    } else {
        let p = parse_rules(s.drop_last());
        match parse_rule(s.last()) {
            Some(r) => p.push(r),
            None => p,
        }
    }
}

pub open spec fn str_views(s: Seq<String>) -> Seq<Seq<char>> {
    s.map_values(|x: String| x@)
}

/// The rule an "always allow" answer adds: the exact command for bash,
/// the exact path for other tools.
pub open spec fn remembered_rule(name: Seq<char>, args: ToolArgsView) -> RuleView {
    RuleView {
        tool: name,
        matcher: if lower(name) == "bash"@ {
            args.command
        } else {
            args.path
        },
    }
}

/// Some rule of `rules` covers the call.
pub open spec fn any_matches(rules: Seq<RuleView>, name: Seq<char>, args: ToolArgsView) -> bool {
    exists|i: int| 0 <= i < rules.len() && rule_matches(#[trigger] rules[i], name, args)
}

/// The rule the deny message names: the first deny rule that covers the call.
pub open spec fn first_match(rules: Seq<RuleView>, name: Seq<char>, args: ToolArgsView) -> int {
    choose|i: int|
        0 <= i < rules.len() && rule_matches(rules[i], name, args) && forall|j: int|
            0 <= j < i ==> !rule_matches(#[trigger] rules[j], name, args)
}

pub open spec fn deny_reason(r: RuleView) -> Seq<char> {
    "blocked by deny rule "@ + r.tool + "("@ + match r.matcher {
        Some(m) => m,
        None => "*"@,
    } + ")"@
}

/// The decision for a call of `name` (of kind `kind`) with `args` in `mode`:
/// a covering deny rule always wins; plan mode allows only read-only tools;
/// read-only tools are allowed; auto mode allows edits; anything else is
/// allowed when a configured or remembered allow rule covers it, and asked
/// about otherwise.
pub open spec fn decide(
    allow: Seq<RuleView>,
    deny: Seq<RuleView>,
    session: Seq<RuleView>,
    mode: Mode,
    name: Seq<char>,
    kind: ToolKind,
    args: ToolArgsView,
) -> DecisionView {
    if any_matches(deny, name, args) {
        DecisionView::Deny { reason: deny_reason(deny[first_match(deny, name, args)]) }
    } else if mode == Mode::Plan {
        if kind == ToolKind::ReadOnly {
            DecisionView::Allow
        } else {
            DecisionView::Deny { reason: PLAN_DENY@ }
        }
    } else if kind == ToolKind::ReadOnly {
        DecisionView::Allow
    } else if mode == Mode::Auto && kind == ToolKind::Edit {
        DecisionView::Allow
    } else if any_matches(allow, name, args) || any_matches(session, name, args) {
        DecisionView::Allow
    } else {
        DecisionView::Ask
    }
}

/// The first rule of `rules` that covers the call.
fn first_matching(rules: &Vec<Rule>, name: &str, args: &ToolArgs) -> (r: Option<usize>)
    ensures
        match r {
            Some(i) => i < rules@.len() && rule_matches(rules@[i as int]@, name@, args@) && forall|
                j: int,
            | 0 <= j < i ==> !rule_matches(#[trigger] rule_views(rules@)[j], name@, args@),
            None => !any_matches(rule_views(rules@), name@, args@),
        },
{
    let mut i: usize = 0;
    while i < rules.len()
        invariant
            i <= rules@.len(),
            forall|j: int| 0 <= j < i ==> !rule_matches(#[trigger] rule_views(rules@)[j], name@, args@),
        decreases rules@.len() - i,
    {
        if rules[i].matches(name, args) {
            return Some(i);
        }
        assert(rule_views(rules@)[i as int] == rules@[i as int]@);
        i = i + 1;
    }
    None
}

impl PermissionEngine {
    pub open spec fn allow_rules(&self) -> Seq<RuleView> {
        rule_views(self.allow@)
    }

    pub open spec fn deny_rules(&self) -> Seq<RuleView> {
        rule_views(self.deny@)
    }

    pub open spec fn session_rules(&self) -> Seq<RuleView> {
        rule_views(self.session_allow@)
    }

    /// Parse the configured rules, skipping malformed ones; no session
    /// rules yet.
    pub fn from_config(config: &PermissionsConfig) -> (e: PermissionEngine)
        ensures
            e.allow_rules() == parse_rules(str_views(config.allow@)),
            e.deny_rules() == parse_rules(str_views(config.deny@)),
            e.session_rules() == Seq::<RuleView>::empty(),
    {
        let e = PermissionEngine {
            allow: parse_all(&config.allow),
            deny: parse_all(&config.deny),
            session_allow: Vec::new(),
        };
        assert(e.session_rules() =~= Seq::<RuleView>::empty());
        e
    }

    /// Remember an "always allow" answer for the rest of the session: for
    /// bash the exact command, for other tools the exact path (a missing
    /// argument leaves the rule without a matcher).
    pub fn remember_allow(&mut self, tool_name: &str, args: &ToolArgs)
        ensures
            final(self).allow_rules() == old(self).allow_rules(),
            final(self).deny_rules() == old(self).deny_rules(),
            final(self).session_rules() == old(self).session_rules().push(
                remembered_rule(tool_name@, args@),
            ),
    {
        let nt = to_chars(tool_name);
        let lname = lower_exec(nt.as_slice());
        let bash = to_chars("bash");
        let matcher = if crate::text::chars_eq(lname.as_slice(), bash.as_slice()) {
            crate::model::copy_opt_string(&args.command)
        } else {
            crate::model::copy_opt_string(&args.path)
        };
        let ghost before = self.session_allow@;
        self.session_allow.push(Rule { tool: crate::text::own(tool_name), matcher });
        assert(rule_views(self.session_allow@) =~= rule_views(before).push(
            self.session_allow@.last()@,
        ));
    }

    /// Decide one call (see `decide`).
    pub fn evaluate(&self, mode: Mode, tool_name: &str, kind: ToolKind, args: &ToolArgs) -> (d:
        Decision)
        ensures
            d@ == decide(
                self.allow_rules(),
                self.deny_rules(),
                self.session_rules(),
                mode,
                tool_name@,
                kind,
                args@,
            ),
    {
        if let Some(i) = first_matching(&self.deny, tool_name, args) {
            let rule = &self.deny[i];
            proof {
                let dv = self.deny_rules();
                assert(dv[i as int] == rule@);
                assert(any_matches(dv, tool_name@, args@));
                let pi = 0 <= i < dv.len() && rule_matches(dv[i as int], tool_name@, args@) && forall|
                    j: int,
                | 0 <= j < i ==> !rule_matches(#[trigger] dv[j], tool_name@, args@);
                assert(pi);
                let f = first_match(dv, tool_name@, args@);
                assert(0 <= f < dv.len() && rule_matches(dv[f], tool_name@, args@) && forall|j: int|
                    0 <= j < f ==> !rule_matches(#[trigger] dv[j], tool_name@, args@));
                assert(f == i) by {
                    if f < i {
                        assert(!rule_matches(dv[f], tool_name@, args@));
                    } else if f > i {
                        assert(!rule_matches(dv[i as int], tool_name@, args@));
                    }
                }
            }
            let mut v: Vec<char> = Vec::new();
            extend_str(&mut v, "blocked by deny rule ");
            extend_str(&mut v, rule.tool.as_str());
            extend_str(&mut v, "(");
            match &rule.matcher {
                Some(m) => extend_str(&mut v, m.as_str()),
                None => extend_str(&mut v, "*"),
            }
            extend_str(&mut v, ")");
            return Decision::Deny { reason: from_chars(v.as_slice()) };
        }
        if mode == Mode::Plan {
            if kind == ToolKind::ReadOnly {
                Decision::Allow
            } else {
                Decision::Deny { reason: crate::text::own(PLAN_DENY) }
            }
        } else if kind == ToolKind::ReadOnly {
            Decision::Allow
        } else if mode == Mode::Auto && kind == ToolKind::Edit {
            Decision::Allow
        } else {
            let a = first_matching(&self.allow, tool_name, args);
            let b = first_matching(&self.session_allow, tool_name, args);
            if a.is_some() || b.is_some() {
                proof {
                    if a.is_some() {
                        let i = a.unwrap() as int;
                        assert(rule_views(self.allow@)[i] == self.allow@[i]@);
                    } else {
                        let i = b.unwrap() as int;
                        assert(rule_views(self.session_allow@)[i] == self.session_allow@[i]@);
                    }
                }
                Decision::Allow
            } else {
                Decision::Ask
            }
        }
    }
}

/// Parse every rule string, skipping malformed ones.
fn parse_all(rules: &Vec<String>) -> (r: Vec<Rule>)
    ensures
        rule_views(r@) == parse_rules(str_views(rules@)),
{
    let ghost sv = str_views(rules@);
    let mut out: Vec<Rule> = Vec::new();
    let mut i: usize = 0;
    while i < rules.len()
        invariant
            i <= rules@.len(),
            sv == str_views(rules@),
            rule_views(out@) == parse_rules(sv.take(i as int)),
        decreases rules@.len() - i,
    {
        assert(sv.take(i + 1).drop_last() =~= sv.take(i as int));
        assert(sv.take(i + 1).last() == rules@[i as int]@);
        let ghost before = out@;
        match Rule::parse(rules[i].as_str()) {
            Some(rule) => {
                out.push(rule);
                assert(rule_views(out@) =~= rule_views(before).push(out@.last()@));
            },
            None => {},
        }
        i = i + 1;
    }
    assert(sv.take(rules@.len() as int) =~= sv);
    out
}

/// An explicit deny rule wins in every mode, for every kind of tool.
pub proof fn law_deny_wins(
    allow: Seq<RuleView>,
    deny: Seq<RuleView>,
    session: Seq<RuleView>,
    mode: Mode,
    name: Seq<char>,
    kind: ToolKind,
    args: ToolArgsView,
)
    requires
        any_matches(deny, name, args),
    ensures
        decide(allow, deny, session, mode, name, kind, args) is Deny,
{
}

/// A call that is not read-only, outside plan mode and not an edit in auto
/// mode, is allowed only when a configured or remembered allow rule covers
/// it: with no rule covering it at all, the user is asked.
pub proof fn law_uncovered_call_is_asked(
    allow: Seq<RuleView>,
    deny: Seq<RuleView>,
    session: Seq<RuleView>,
    mode: Mode,
    name: Seq<char>,
    kind: ToolKind,
    args: ToolArgsView,
)
    requires
        !any_matches(allow, name, args),
        !any_matches(session, name, args),
        !any_matches(deny, name, args),
        kind != ToolKind::ReadOnly,
        mode != Mode::Plan,
        !(mode == Mode::Auto && kind == ToolKind::Edit),
    ensures
        decide(allow, deny, session, mode, name, kind, args) is Ask,
{
}

/// Auto mode approves edits without asking, unless a deny rule covers them.
pub proof fn law_auto_mode_allows_edits(
    allow: Seq<RuleView>,
    deny: Seq<RuleView>,
    session: Seq<RuleView>,
    name: Seq<char>,
    args: ToolArgsView,
)
    requires
        !any_matches(deny, name, args),
    ensures
        decide(allow, deny, session, Mode::Auto, name, ToolKind::Edit, args) is Allow,
{
}

/// Plan mode is read-only: it never allows a tool that is not read-only.
pub proof fn law_plan_mode_is_read_only(
    allow: Seq<RuleView>,
    deny: Seq<RuleView>,
    session: Seq<RuleView>,
    name: Seq<char>,
    kind: ToolKind,
    args: ToolArgsView,
)
    requires
        kind != ToolKind::ReadOnly,
    ensures
        decide(allow, deny, session, Mode::Plan, name, kind, args) is Deny,
{
}

/// Read-only tools are allowed in every mode unless a deny rule covers them.
pub proof fn law_read_only_allowed_unless_denied(
    allow: Seq<RuleView>,
    deny: Seq<RuleView>,
    session: Seq<RuleView>,
    mode: Mode,
    name: Seq<char>,
    args: ToolArgsView,
)
    requires
        !any_matches(deny, name, args),
    ensures
        decide(allow, deny, session, mode, name, ToolKind::ReadOnly, args) is Allow,
{
}

/// Nothing but a deny rule or plan mode stops a call that an allow rule
/// covers.
pub proof fn law_allow_rule_allows(
    allow: Seq<RuleView>,
    deny: Seq<RuleView>,
    session: Seq<RuleView>,
    mode: Mode,
    name: Seq<char>,
    kind: ToolKind,
    args: ToolArgsView,
)
    requires
        any_matches(allow, name, args),
        !any_matches(deny, name, args),
        mode != Mode::Plan,
    ensures
        decide(allow, deny, session, mode, name, kind, args) is Allow,
{
}

/// Remembered answers stick: once a bash call is remembered as "always
/// allow", the same call is allowed from then on outside plan mode, unless
/// a deny rule covers it. (A command ending in `:*` is excluded: as a
/// matcher it means "this prefix and more", which the command itself does
/// not satisfy.)
pub proof fn law_remembered_bash_call_is_allowed(
    allow: Seq<RuleView>,
    deny: Seq<RuleView>,
    session: Seq<RuleView>,
    mode: Mode,
    name: Seq<char>,
    kind: ToolKind,
    args: ToolArgsView,
)
    requires
        lower(name) == "bash"@,
        !any_matches(deny, name, args),
        mode != Mode::Plan,
        match args.command {
            Some(c) => !(c.len() >= 2 && c.subrange(c.len() - 2, c.len() as int) == ":*"@),
            None => true,
        },
    ensures
        decide(allow, deny, session.push(remembered_rule(name, args)), mode, name, kind, args)
            is Allow,
{
    let s2 = session.push(remembered_rule(name, args));
    assert(rule_matches(s2[session.len() as int], name, args));
    assert(any_matches(s2, name, args));
}

/// The rule strings of `s` that parse, in order.
pub open spec fn parsable(s: Seq<Seq<char>>) -> Seq<Seq<char>>
    decreases s.len(),
{
    if s.len() == 0 {
        Seq::empty()
    } else {
        let p = parsable(s.drop_last());
        if parse_rule(s.last()) is Some {
            p.push(s.last())
        } else {
            p
        }
    }
}

proof fn lemma_parse_rules_parsable(s: Seq<Seq<char>>)
    ensures
        parse_rules(parsable(s)) == parse_rules(s),
    decreases s.len(),
{
    if s.len() > 0 {
        lemma_parse_rules_parsable(s.drop_last());
        let p = parsable(s.drop_last());
        if parse_rule(s.last()) is Some {
            assert(p.push(s.last()).drop_last() =~= p);
        }
    }
}

/// Malformed rules are ignored, never fatal: an engine built from rule
/// strings decides every call (in any mode, with or without remembered
/// allows) exactly as one built from only the strings that parse.
pub proof fn law_malformed_rules_ignored(
    allow: Seq<Seq<char>>,
    deny: Seq<Seq<char>>,
    session: Seq<RuleView>,
    mode: Mode,
    name: Seq<char>,
    kind: ToolKind,
    args: ToolArgsView,
)
    ensures
        decide(parse_rules(allow), parse_rules(deny), session, mode, name, kind, args) == decide(
            parse_rules(parsable(allow)),
            parse_rules(parsable(deny)),
            session,
            mode,
            name,
            kind,
            args,
        ),
{
    lemma_parse_rules_parsable(allow);
    lemma_parse_rules_parsable(deny);
}

} // verus!
