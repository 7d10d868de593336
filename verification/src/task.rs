//! The `task` tool, which hands a self-contained task to a subagent: its
//! description and schema, the checks before a run (nesting depth, known
//! profile), how a run is set up (the VRAM gate, the write gate, the
//! subagent's prompt), how subagent events reach the parent, and what the
//! run reports.
use vstd::prelude::*;

use crate::agent::AgentError;
use crate::config::{agent_views, AgentProfileConfig, ProfileView};
use crate::json::{json_member, json_quoted, json_string_of, quote_json};
use crate::model::Usage;
use crate::permissions::ToolKind;
use crate::text::{extend, extend_str, from_chars, lines, lines_exec, str_eq, to_chars, trim, trim_exec};
use crate::tool_defs::string_arg;
use crate::tools::ToolOutput;

verus! {

/// Deepest agent nesting: main (0), subagent (1), its subagent (2).
pub const MAX_DEPTH: u8 = 2;

/// The `task` tool over the configured subagent profiles.
pub struct TaskTool {
    pub agents: Vec<(String, AgentProfileConfig)>,
}

pub open spec fn profile_list(a: Seq<(Seq<char>, ProfileView)>) -> Seq<char>
    decreases a.len(),
{
    if a.len() == 0 {
        Seq::empty()
    } else if a.len() == 1 {
        "`"@ + a[0].0 + "` ("@ + a[0].1.description + ")"@
    } else {
        profile_list(a.drop_last()) + ", "@ + "`"@ + a.last().0 + "` ("@ + a.last().1.description + ")"@
    }
}

/// The description the model reads: the available profiles are baked in.
pub open spec fn task_description(a: Seq<(Seq<char>, ProfileView)>) -> Seq<char> {
    "Delegate a self-contained task to a specialist subagent. Available agents: "@ + profile_list(a)
        + ". Give the full task in `prompt` — the subagent cannot see this conversation."@
}

pub open spec fn name_list(a: Seq<(Seq<char>, ProfileView)>) -> Seq<char>
    decreases a.len(),
{
    if a.len() == 0 {
        Seq::empty()
    } else if a.len() == 1 {
        a[0].0
    } else {
        name_list(a.drop_last()) + ", "@ + a.last().0
    }
}

pub open spec fn quoted_names(a: Seq<(Seq<char>, ProfileView)>) -> Seq<char>
    decreases a.len(),
{
    if a.len() == 0 {
        Seq::empty()
    } else if a.len() == 1 {
        json_quoted(a[0].0)
    } else {
        quoted_names(a.drop_last()) + ","@ + json_quoted(a.last().0)
    }
}

/// The arguments schema (JSON text): the agent is one of the profiles.
pub open spec fn task_schema(a: Seq<(Seq<char>, ProfileView)>) -> Seq<char> {
    "{\"properties\":{\"agent\":{\"description\":\"Which subagent profile to use\",\"enum\":["@ + quoted_names(a)
        + "],\"type\":\"string\"},\"prompt\":{\"description\":\"Complete, self-contained task description\",\"type\":\"string\"}},\"required\":[\"agent\",\"prompt\"],\"type\":\"object\"}"@
}

/// `task[<agent>]: <first 60 characters of the prompt>`.
pub open spec fn task_summary(args: Seq<char>) -> Seq<char> {
    let agent = match json_member(args, "agent"@) {
        Some(m) => match json_string_of(m) {
            Some(s) => s,
            None => "?"@,
        },
        None => "?"@,
    };
    let prompt = match json_member(args, "prompt"@) {
        Some(m) => match json_string_of(m) {
            Some(s) => s,
            None => Seq::empty(),
        },
        None => Seq::empty(),
    };
    "task["@ + agent + "]: "@ + (if prompt.len() > 60 {
        prompt.take(60)
    } else {
        prompt
    })
}

/// The profile named `name`, first match.
pub open spec fn profile_named(a: Seq<(Seq<char>, ProfileView)>, name: Seq<char>) -> Option<int>
    decreases a.len(),
{
    if a.len() == 0 {
        None
    } else if a[0].0 == name {
        Some(0)
    } else {
        match profile_named(a.drop_first(), name) {
            Some(i) => Some(i + 1),
            None => None,
        }
    }
}

/// Why a task is refused before it runs: at the nesting limit, or for an
/// agent no profile defines.
pub open spec fn refusal(a: Seq<(Seq<char>, ProfileView)>, depth: u8, agent: Seq<char>) -> Option<Seq<char>> {
    if depth >= MAX_DEPTH {
        Some("subagent nesting limit reached; do it yourself"@)
    } else if profile_named(a, agent) is None {
        Some("unknown agent `"@ + agent + "`. Available: "@ + name_list(a))
    } else {
        None
    }
}

/// Tools that change state; a profile with any of them runs serialized.
pub open spec fn writes(tools: Seq<Seq<char>>) -> bool {
    exists|i: int| 0 <= i < tools.len() && (tools[i] == "edit"@ || tools[i] == "write"@ || tools[i] == "bash"@
        || tools[i] == "task"@)
}

/// The subagent's system prompt: the profile's own, else a default naming
/// the agent and what it is for.
pub open spec fn subagent_prompt(agent: Seq<char>, p: ProfileView) -> Seq<char> {
    match p.system_prompt {
        Some(s) => s,
        None => "You are the `"@ + agent + "` subagent: "@ + p.description
            + ". Complete the task and report your findings as plain text. Your final message is returned to the main agent."@,
    }
}

/// What the run of a subagent reports: its final text, unless empty
/// (after trimming) or the run failed.
pub open spec fn task_outcome(r: Result<Seq<char>, Seq<char>>) -> (bool, Seq<char>) {
    match r {
        Ok(text) => if trim(text).len() == 0 {
            (true, "subagent finished without a report"@)
        } else {
            (false, text)
        },
        Err(e) => (true, "subagent failed: "@ + e),
    }
}

/// How a subagent run is set up.
pub struct TaskPlan {
    pub profile: usize,
    /// A local model other than the main one: hold the VRAM gate for the
    /// whole run and have the server evict the model afterwards.
    pub needs_gate: bool,
    /// The profile can change state: run serialized with other such runs.
    pub writes: bool,
    pub system_prompt: String,
    pub max_iterations: u32,
    pub depth: u8,
}

impl TaskTool {
    pub fn name(&self) -> (r: &'static str)
        ensures
            r@ == "task"@,
    {
        "task"
    }

    pub fn kind(&self) -> (k: ToolKind)
        ensures
            k == ToolKind::Spawn,
    {
        ToolKind::Spawn
    }

    /// See `task_description`.
    pub fn description(&self) -> (r: String)
        ensures
            r@ == task_description(agent_views(self.agents@)),
    {
        let ghost av = agent_views(self.agents@);
        let mut v = to_chars("Delegate a self-contained task to a specialist subagent. Available agents: ");
        let ghost head = v@;
        let mut i: usize = 0;
        while i < self.agents.len()
            invariant
                i <= self.agents@.len(),
                av == agent_views(self.agents@),
                v@ == head + profile_list(av.take(i as int)),
            decreases self.agents@.len() - i,
        {
            proof {
                assert(av.take(i + 1).drop_last() =~= av.take(i as int));
                assert(av.take(i + 1).last() == av[i as int]);
            }
            let ghost before = v@;
            if i > 0 {
                extend_str(&mut v, ", ");
            }
            extend_str(&mut v, "`");
            extend_str(&mut v, self.agents[i].0.as_str());
            extend_str(&mut v, "` (");
            extend_str(&mut v, self.agents[i].1.description.as_str());
            extend_str(&mut v, ")");
            proof {
                if i == 0 {
                    assert(av.take(1)[0] == av[0]);
                    assert(v@ =~= head + ("`"@ + av[0].0 + "` ("@ + av[0].1.description + ")"@));
                } else {
                    assert(v@ =~= before + (", "@ + "`"@ + av[i as int].0 + "` ("@ + av[i as int].1.description
                        + ")"@));
                }
            }
            i = i + 1;
        }
        assert(av.take(self.agents@.len() as int) =~= av);
        extend_str(&mut v, ". Give the full task in `prompt` — the subagent cannot see this conversation.");
        from_chars(v.as_slice())
    }

    /// See `task_schema`.
    pub fn schema(&self) -> (r: String)
        ensures
            r@ == task_schema(agent_views(self.agents@)),
    {
        let ghost av = agent_views(self.agents@);
        let mut v = to_chars(
            "{\"properties\":{\"agent\":{\"description\":\"Which subagent profile to use\",\"enum\":[",
        );
        let ghost head = v@;
        let mut i: usize = 0;
        while i < self.agents.len()
            invariant
                i <= self.agents@.len(),
                av == agent_views(self.agents@),
                v@ == head + quoted_names(av.take(i as int)),
            decreases self.agents@.len() - i,
        {
            proof {
                assert(av.take(i + 1).drop_last() =~= av.take(i as int));
                assert(av.take(i + 1).last() == av[i as int]);
            }
            let ghost before = v@;
            if i > 0 {
                extend_str(&mut v, ",");
            }
            let q = quote_json(self.agents[i].0.as_str());
            extend_str(&mut v, q.as_str());
            proof {
                if i == 0 {
                    assert(av.take(1)[0] == av[0]);
                    assert(v@ =~= head + json_quoted(av[0].0));
                } else {
                    assert(v@ =~= before + (","@ + json_quoted(av[i as int].0)));
                }
            }
            i = i + 1;
        }
        assert(av.take(self.agents@.len() as int) =~= av);
        extend_str(
            &mut v,
            "],\"type\":\"string\"},\"prompt\":{\"description\":\"Complete, self-contained task description\",\"type\":\"string\"}},\"required\":[\"agent\",\"prompt\"],\"type\":\"object\"}",
        );
        from_chars(v.as_slice())
    }

    /// See `task_summary`.
    pub fn describe_call(&self, args: &str) -> (r: String)
        ensures
            r@ == task_summary(args@),
    {
        let mut v = to_chars("task[");
        match string_arg(args, "agent") {
            Some(a) => extend_str(&mut v, a.as_str()),
            None => extend_str(&mut v, "?"),
        }
        extend_str(&mut v, "]: ");
        let prompt: Vec<char> = match string_arg(args, "prompt") {
            Some(p) => to_chars(p.as_str()),
            None => Vec::new(),
        };
        let n = if prompt.len() > 60 {
            60
        } else {
            prompt.len()
        };
        let ghost before = v@;
        let mut i: usize = 0;
        while i < n
            invariant
                i <= n <= prompt@.len(),
                v@ == before + prompt@.take(i as int),
            decreases n - i,
        {
            v.push(prompt[i]);
            assert(prompt@.take(i + 1) =~= prompt@.take(i as int).push(prompt@[i as int]));
            i = i + 1;
        }
        proof {
            assert(prompt@.take(n as int) =~= (if prompt@.len() > 60 {
                prompt@.take(60)
            } else {
                prompt@
            }));
        }
        from_chars(v.as_slice())
    }

    fn find_profile(&self, agent: &str) -> (r: Option<usize>)
        ensures
            match r {
                Some(i) => profile_named(agent_views(self.agents@), agent@) == Some(i as int) && i < self.agents@.len(),
                None => profile_named(agent_views(self.agents@), agent@) is None,
            },
    {
        let ghost av = agent_views(self.agents@);
        let mut i: usize = 0;
        assert(av.skip(0) =~= av);
        while i < self.agents.len()
            invariant
                i <= self.agents@.len(),
                av == agent_views(self.agents@),
                forall|j: int| 0 <= j < i ==> av[j].0 != agent@,
                profile_named(av, agent@) == match profile_named(av.skip(i as int), agent@) {
                    Some(k) => Some(k + i),
                    None => None,
                },
            decreases self.agents@.len() - i,
        {
            let ghost t = av.skip(i as int);
            assert(t[0] == av[i as int]);
            assert(t.drop_first() =~= av.skip(i + 1));
            if str_eq(self.agents[i].0.as_str(), agent) {
                return Some(i);
            }
            i = i + 1;
        }
        assert(av.skip(self.agents@.len() as int) =~= Seq::<(Seq<char>, ProfileView)>::empty());
        None
    }

    /// The refusal of a task before it runs (see `refusal`), or the index
    /// of its profile.
    pub fn check(&self, depth: u8, agent: &str) -> (r: Result<usize, String>)
        ensures
            match r {
                Ok(i) => refusal(agent_views(self.agents@), depth, agent@) is None && profile_named(
                    agent_views(self.agents@),
                    agent@,
                ) == Some(i as int) && i < self.agents@.len(),
                Err(m) => refusal(agent_views(self.agents@), depth, agent@) == Some(m@),
            },
    {
        if depth >= MAX_DEPTH {
            return Err("subagent nesting limit reached; do it yourself".to_string());
        }
        match self.find_profile(agent) {
            Some(i) => Ok(i),
            None => {
                let ghost av = agent_views(self.agents@);
                let mut v = to_chars("unknown agent `");
                extend_str(&mut v, agent);
                extend_str(&mut v, "`. Available: ");
                let ghost head = v@;
                let mut i: usize = 0;
                while i < self.agents.len()
                    invariant
                        i <= self.agents@.len(),
                        av == agent_views(self.agents@),
                        v@ == head + name_list(av.take(i as int)),
                    decreases self.agents@.len() - i,
                {
                    proof {
                        assert(av.take(i + 1).drop_last() =~= av.take(i as int));
                        assert(av.take(i + 1).last() == av[i as int]);
                    }
                    let ghost before = v@;
                    if i > 0 {
                        extend_str(&mut v, ", ");
                    }
                    extend_str(&mut v, self.agents[i].0.as_str());
                    proof {
                        if i == 0 {
                            assert(av.take(1)[0] == av[0]);
                            assert(v@ =~= head + av[0].0);
                        } else {
                            assert(v@ =~= before + (", "@ + av[i as int].0));
                        }
                    }
                    i = i + 1;
                }
                assert(av.take(self.agents@.len() as int) =~= av);
                Err(from_chars(v.as_slice()))
            },
        }
    }

    /// Set up the run of profile `profile` for `agent`: the gates, the
    /// subagent's prompt, its turn limit and its depth.
    pub fn plan(&self, profile: usize, agent: &str, depth: u8, is_local: bool, model: &str, main_model: &str) -> (r: TaskPlan)
        requires
            profile < self.agents@.len(),
            depth < MAX_DEPTH,
        ensures
            r.profile == profile,
            r.needs_gate == (is_local && model@ != main_model@),
            r.writes == writes(agent_views(self.agents@)[profile as int].1.tools),
            r.system_prompt@ == subagent_prompt(agent@, agent_views(self.agents@)[profile as int].1),
            r.max_iterations == self.agents@[profile as int].1.max_turns,
            r.depth == depth + 1,
    {
        let p = &self.agents[profile].1;
        let ghost pv = p@;
        assert(agent_views(self.agents@)[profile as int].1 == pv);
        let needs_gate = is_local && !str_eq(model, main_model);
        let mut w = false;
        let mut i: usize = 0;
        while i < p.tools.len()
            invariant
                i <= p.tools@.len(),
                pv == p@,
                w == exists|j: int| 0 <= j < i && (pv.tools[j] == "edit"@ || pv.tools[j] == "write"@
                    || pv.tools[j] == "bash"@ || pv.tools[j] == "task"@),
            decreases p.tools@.len() - i,
        {
            let t = p.tools[i].as_str();
            assert(pv.tools[i as int] == t@);
            if str_eq(t, "edit") || str_eq(t, "write") || str_eq(t, "bash") || str_eq(t, "task") {
                w = true;
            }
            i = i + 1;
        }
        let prompt = match &p.system_prompt {
            Some(s) => s.clone(),
            None => {
                let mut v = to_chars("You are the `");
                extend_str(&mut v, agent);
                extend_str(&mut v, "` subagent: ");
                extend_str(&mut v, p.description.as_str());
                extend_str(
                    &mut v,
                    ". Complete the task and report your findings as plain text. Your final message is returned to the main agent.",
                );
                from_chars(v.as_slice())
            },
        };
        TaskPlan { profile, needs_gate, writes: w, system_prompt: prompt, max_iterations: p.max_turns, depth: depth + 1 }
    }
}

/// Whether a finished run gets one nudge: it succeeded with nothing but
/// whitespace to say.
pub fn needs_nudge(result: &Result<String, String>) -> (r: bool)
    ensures
        r == (match result {
            Ok(t) => trim(t@).len() == 0,
            Err(_) => false,
        }),
{
    match result {
        Ok(t) => {
            let c = to_chars(t.as_str());
            trim_exec(c.as_slice()).len() == 0
        },
        Err(_) => false,
    }
}

/// The message that nudges a subagent whose reply was empty.
pub const NUDGE: &'static str = "Your last message had no content. State your findings now as plain text.";

/// What the task reports (see `task_outcome`); a failed run gives its
/// error text.
pub fn task_report(result: &Result<String, String>) -> (r: ToolOutput)
    ensures
        (r.is_error, r.content@) == task_outcome(
            match result {
                Ok(t) => Ok(t@),
                Err(e) => Err(e@),
            },
        ),
{
    match result {
        Ok(t) => {
            let c = to_chars(t.as_str());
            if trim_exec(c.as_slice()).len() == 0 {
                ToolOutput::error("subagent finished without a report")
            } else {
                ToolOutput { content: t.clone(), is_error: false }
            }
        },
        Err(e) => {
            let mut v = to_chars("subagent failed: ");
            extend_str(&mut v, e.as_str());
            ToolOutput { content: from_chars(v.as_slice()), is_error: true }
        },
    }
}

/// What the parent sees of a subagent event.
pub enum SubEvent {
    ToolCallStarted { summary: String },
    ToolFinished { output_preview: String, is_error: bool },
    PermissionRequested { summary: String },
    Usage(Usage),
    Error { message: String },
    Other,
}

/// What the forwarder does with a subagent event.
pub enum Forward {
    /// A progress line for the parent's transcript.
    Progress(String),
    /// The permission request goes up, its summary tagged with the task.
    Ask(String),
    Nothing,
}

pub open spec fn first_line_of(s: Seq<char>) -> Seq<char> {
    if lines(s).len() > 0 {
        lines(s)[0]
    } else {
        Seq::empty()
    }
}

/// The progress text of an event (`None` when nothing is forwarded), the
/// summary of a forwarded permission request, and the usage added up.
pub open spec fn forward_spec(tag: Seq<char>, e: SubEvent, total: Usage) -> (Option<Seq<char>>, Option<Seq<char>>, Usage) {
    match e {
        SubEvent::ToolCallStarted { summary } => (Some("→ "@ + summary@), None, total),
        SubEvent::ToolFinished { output_preview, is_error } => (
            Some((if is_error {
                "✗"@
            } else {
                "✓"@
            }) + " "@ + first_line_of(output_preview@)),
            None,
            total,
        ),
        SubEvent::PermissionRequested { summary } => (None, Some("["@ + tag + "] "@ + summary@), total),
        SubEvent::Usage(u) => (
            None,
            None,
            Usage {
                prompt_tokens: total.prompt_tokens.wrapping_add(u.prompt_tokens),
                completion_tokens: total.completion_tokens.wrapping_add(u.completion_tokens),
            },
        ),
        SubEvent::Error { message } => (Some("! "@ + message@), None, total),
        SubEvent::Other => (None, None, total),
    }
}

/// Forward one subagent event; token counts add up in `total` (wrapping,
/// as unchecked release arithmetic does).
pub fn forward(tag: &str, event: &SubEvent, total: &mut Usage) -> (r: Forward)
    ensures
        match (r, forward_spec(tag@, *event, *old(total))) {
            (Forward::Progress(p), (Some(q), None, u)) => p@ == q && *final(total) == u,
            (Forward::Ask(s), (None, Some(q), u)) => s@ == q && *final(total) == u,
            (Forward::Nothing, (None, None, u)) => *final(total) == u,
            _ => false,
        },
{
    match event {
        SubEvent::ToolCallStarted { summary } => {
            let mut v = to_chars("→ ");
            extend_str(&mut v, summary.as_str());
            Forward::Progress(from_chars(v.as_slice()))
        },
        SubEvent::ToolFinished { output_preview, is_error } => {
            let mut v = if *is_error {
                to_chars("✗")
            } else {
                to_chars("✓")
            };
            extend_str(&mut v, " ");
            let c = to_chars(output_preview.as_str());
            let ls = lines_exec(c.as_slice());
            if ls.len() > 0 {
                extend(&mut v, ls[0].as_slice());
            }
            assert(crate::text::views(ls@) == lines(output_preview@));
            Forward::Progress(from_chars(v.as_slice()))
        },
        SubEvent::PermissionRequested { summary } => {
            let mut v = to_chars("[");
            extend_str(&mut v, tag);
            extend_str(&mut v, "] ");
            extend_str(&mut v, summary.as_str());
            Forward::Ask(from_chars(v.as_slice()))
        },
        SubEvent::Usage(u) => {
            total.prompt_tokens = total.prompt_tokens.wrapping_add(u.prompt_tokens);
            total.completion_tokens = total.completion_tokens.wrapping_add(u.completion_tokens);
            Forward::Nothing
        },
        SubEvent::Error { message } => {
            let mut v = to_chars("! ");
            extend_str(&mut v, message.as_str());
            Forward::Progress(from_chars(v.as_slice()))
        },
        SubEvent::Other => Forward::Nothing,
    }
}

} // verus!
