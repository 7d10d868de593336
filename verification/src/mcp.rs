//! MCP (Model Context Protocol) servers as tools: how a configured server
//! is reached, the environment its child process gets, which of its tools
//! are exposed and under what name (`mcp__<server>__<tool>`), what a call
//! sends, and how its result reads.
use vstd::prelude::*;

use crate::config::McpServerConfig;
use crate::json::{canonical_json, json_canon, json_kind, json_kind_of, JsonKind};
use crate::lsp_state::upsert;
use crate::permissions::ToolKind;
use crate::text::{extend, extend_str, from_chars, join, join_exec, str_eq, to_chars, views};
use crate::tools::{truncate_output, truncated, ToolOutput};

verus! {

/// Above this many tools in all, warn: schemas cost context and calling
/// accuracy.
pub const TOOL_COUNT_WARNING: usize = 25;

/// Seconds a call may take before it is abandoned.
pub const CALL_TIMEOUT_SECS: u64 = 60;

/// How a server is reached.
#[derive(Debug, Clone, PartialEq, Eq)]
pub enum McpTransport {
    /// A child process speaking over stdio.
    Stdio(String),
    /// A streamable HTTP endpoint.
    Http(String),
}

/// Exactly one of `command` and `url` says how to reach the server.
pub fn transport_for(server: &McpServerConfig) -> (r: Result<McpTransport, String>)
    ensures
        match (server.command, server.url) {
            (Some(c), None) => r matches Ok(McpTransport::Stdio(x)) && x@ == c@,
            (None, Some(u)) => r matches Ok(McpTransport::Http(x)) && x@ == u@,
            _ => r matches Err(m) && m@ == "exactly one of command/url required"@,
        },
{
    match (&server.command, &server.url) {
        (Some(c), None) => Ok(McpTransport::Stdio(c.clone())),
        (None, Some(u)) => Ok(McpTransport::Http(u.clone())),
        _ => Err("exactly one of command/url required".to_string()),
    }
}

pub open spec fn pair_views(v: Seq<(String, String)>) -> Seq<(Seq<char>, Seq<char>)> {
    v.map_values(|p: (String, String)| (p.0@, p.1@))
}

pub open spec fn opt_views(v: Seq<Option<String>>) -> Seq<Option<Seq<char>>> {
    v.map_values(|o: Option<String>| crate::model::opt_view(o))
}

/// The child's environment: the literal `env` entries, then each
/// `env_from` entry set to the host variable it names; a host variable
/// that is not set fails the whole server.
pub open spec fn env_spec(
    env: Seq<(Seq<char>, Seq<char>)>,
    from: Seq<(Seq<char>, Seq<char>)>,
    host: Seq<Option<Seq<char>>>,
) -> Result<Seq<(Seq<char>, Seq<char>)>, Seq<char>>
    decreases from.len(),
{
    if from.len() == 0 {
        Ok(env)
    } else {
        match env_spec(env, from.drop_last(), host.drop_last()) {
            Err(e) => Err(e),
            Ok(acc) => match host.last() {
                Some(v) => Ok(upsert(acc, from.last().0, v)),
                None => Err("env_from: host variable `"@ + from.last().1 + "` is not set"@),
            },
        }
    }
}

/// See `env_spec`; `host[i]` is the value of the host variable that
/// `server.env_from[i]` names, if set.
pub fn resolve_env(server: &McpServerConfig, host: &Vec<Option<String>>) -> (r: Result<Vec<(String, String)>, String>)
    requires
        host@.len() == server.env_from@.len(),
    ensures
        match (r, env_spec(pair_views(server.env@), pair_views(server.env_from@), opt_views(host@))) {
            (Ok(a), Ok(b)) => pair_views(a@) == b,
            (Err(a), Err(b)) => a@ == b,
            _ => false,
        },
{
    let mut env: Vec<(String, String)> = Vec::new();
    let mut i: usize = 0;
    while i < server.env.len()
        invariant
            i <= server.env@.len(),
            pair_views(env@) =~= pair_views(server.env@).take(i as int),
        decreases server.env@.len() - i,
    {
        let (k, v) = &server.env[i];
        env.push((k.clone(), v.clone()));
        assert(pair_views(server.env@).take(i + 1) =~= pair_views(server.env@).take(i as int).push((k@, v@)));
        i = i + 1;
    }
    assert(pair_views(server.env@).take(server.env@.len() as int) =~= pair_views(server.env@));
    let ghost e0 = pair_views(server.env@);
    let ghost fv = pair_views(server.env_from@);
    let ghost hv = opt_views(host@);
    let mut j: usize = 0;
    assert(fv.take(0) =~= Seq::<(Seq<char>, Seq<char>)>::empty());
    while j < server.env_from.len()
        invariant
            j <= server.env_from@.len(),
            host@.len() == server.env_from@.len(),
            fv == pair_views(server.env_from@),
            hv == opt_views(host@),
            e0 == pair_views(server.env@),
            env_spec(e0, fv.take(j as int), hv.take(j as int)) == Ok::<
                Seq<(Seq<char>, Seq<char>)>,
                Seq<char>,
            >(pair_views(env@)),
        decreases server.env_from@.len() - j,
    {
        proof {
            assert(fv.take(j + 1).drop_last() =~= fv.take(j as int));
            assert(hv.take(j + 1).drop_last() =~= hv.take(j as int));
            assert(fv.take(j + 1).last() == fv[j as int]);
            assert(hv.take(j + 1).last() == hv[j as int]);
        }
        let (child, host_var) = &server.env_from[j];
        match &host[j] {
            Some(v) => {
                proof {
                    assert(hv[j as int] == Some(v@));
                    assert(fv[j as int].0 == child@);
                }
                set_env(&mut env, child.as_str(), v.as_str());
            },
            None => {
                let mut m = to_chars("env_from: host variable `");
                extend_str(&mut m, host_var.as_str());
                extend_str(&mut m, "` is not set");
                proof {
                    assert(hv[j as int] is None);
                    assert(fv[j as int].1 == host_var@);
                    assert(env_spec(e0, fv.take(j + 1), hv.take(j + 1)) == Err::<Seq<(Seq<char>, Seq<char>)>, Seq<char>>(
                        m@,
                    ));
                }
                let r: Result<Vec<(String, String)>, String> = Err(from_chars(m.as_slice()));
                proof {
                    lemma_env_err_stays(e0, fv, hv, (j + 1) as nat);
                }
                return r;
            },
        }
        j = j + 1;
    }
    assert(fv.take(server.env_from@.len() as int) =~= fv);
    assert(hv.take(server.env_from@.len() as int) =~= hv);
    Ok(env)
}

/// Once a host variable is missing, the environment stays refused.
proof fn lemma_env_err_stays(e0: Seq<(Seq<char>, Seq<char>)>, fv: Seq<(Seq<char>, Seq<char>)>, hv: Seq<Option<Seq<char>>>, k: nat)
    requires
        k <= fv.len(),
        fv.len() == hv.len(),
        env_spec(e0, fv.take(k as int), hv.take(k as int)) is Err,
    ensures
        env_spec(e0, fv, hv) == env_spec(e0, fv.take(k as int), hv.take(k as int)),
    decreases fv.len() - k,
{
    if k < fv.len() {
        assert(fv.take((k + 1) as int).drop_last() =~= fv.take(k as int));
        assert(hv.take((k + 1) as int).drop_last() =~= hv.take(k as int));
        lemma_env_err_stays(e0, fv, hv, k + 1);
    } else {
        assert(fv.take(k as int) =~= fv);
        assert(hv.take(k as int) =~= hv);
    }
}

/// Set `key` in `env` (see `upsert`).
fn set_env(env: &mut Vec<(String, String)>, key: &str, value: &str)
    ensures
        pair_views(final(env)@) == upsert(pair_views(old(env)@), key@, value@),
{
    let ghost vs = pair_views(env@);
    let mut i: usize = 0;
    assert(vs.take(0) + upsert(vs.skip(0), key@, value@) =~= upsert(vs, key@, value@)) by {
        assert(vs.skip(0) =~= vs);
    }
    while i < env.len()
        invariant
            i <= env@.len(),
            vs == pair_views(env@),
            vs == pair_views(old(env)@),
            forall|j: int| 0 <= j < i ==> (#[trigger] vs[j]).0 != key@,
            upsert(vs, key@, value@) == vs.take(i as int) + upsert(vs.skip(i as int), key@, value@),
        decreases env@.len() - i,
    {
        let ghost t = vs.skip(i as int);
        assert(t[0] == vs[i as int]);
        if str_eq(env[i].0.as_str(), key) {
            env.set(i, (key.to_string(), value.to_string()));
            proof {
                assert(upsert(t, key@, value@) == t.update(0, (key@, value@)));
                assert(pair_views(env@) =~= vs.take(i as int) + t.update(0, (key@, value@)));
            }
            return;
        }
        proof {
            assert(t.drop_first() =~= vs.skip(i + 1));
            assert(vs.take(i as int) + (seq![t[0]] + upsert(vs.skip(i + 1), key@, value@)) =~= vs.take(i + 1)
                + upsert(vs.skip(i + 1), key@, value@));
        }
        i = i + 1;
    }
    env.push((key.to_string(), value.to_string()));
    proof {
        assert(vs.skip(i as int) =~= Seq::<(Seq<char>, Seq<char>)>::empty());
        assert(pair_views(env@) =~= vs.take(i as int) + seq![(key@, value@)]);
    }
}

/// Whether a server's tool is exposed: all are, unless `only_tools`
/// lists the ones that are.
pub open spec fn included(only: Option<Seq<Seq<char>>>, tool: Seq<char>) -> bool {
    match only {
        Some(names) => names.contains(tool),
        None => true,
    }
}

/// See `included`.
pub fn is_included(server: &McpServerConfig, tool: &str) -> (r: bool)
    ensures
        r == included(
            match server.only_tools {
                Some(v) => Some(v@.map_values(|s: String| s@)),
                None => None,
            },
            tool@,
        ),
{
    match &server.only_tools {
        None => true,
        Some(names) => {
            let ghost nv = names@.map_values(|s: String| s@);
            let mut i: usize = 0;
            while i < names.len()
                invariant
                    i <= names@.len(),
                    nv == names@.map_values(|s: String| s@),
                    server.only_tools == Some(*names),
                    forall|j: int| 0 <= j < i ==> nv[j] != tool@,
                decreases names@.len() - i,
            {
                if str_eq(names[i].as_str(), tool) {
                    assert(nv[i as int] == tool@);
                    assert(nv.contains(tool@));
                    return true;
                }
                i = i + 1;
            }
            false
        },
    }
}

/// One remote tool as the model sees it.
pub struct McpTool {
    /// `mcp__<server>__<tool>`.
    pub name: String,
    pub description: String,
    /// The tool's name on its server.
    pub remote_name: String,
    /// Its input schema, as JSON text.
    pub schema: String,
}

/// The name a server's tool goes by.
pub open spec fn mcp_name(server: Seq<char>, tool: Seq<char>) -> Seq<char> {
    "mcp__"@ + server + "__"@ + tool
}

impl McpTool {
    /// A server's tool, named after the server; a tool without a
    /// description says so.
    pub fn new(server: &str, tool: &str, description: Option<&str>, schema: &str) -> (r: McpTool)
        ensures
            r.name@ == mcp_name(server@, tool@),
            r.description@ == match description {
                Some(d) => d@,
                None => "(no description provided by server)"@,
            },
            r.remote_name@ == tool@,
            r.schema@ == schema@,
    {
        let mut n = to_chars("mcp__");
        extend_str(&mut n, server);
        extend_str(&mut n, "__");
        extend_str(&mut n, tool);
        McpTool {
            name: from_chars(n.as_slice()),
            description: match description {
                Some(d) => d.to_string(),
                None => "(no description provided by server)".to_string(),
            },
            remote_name: tool.to_string(),
            schema: schema.to_string(),
        }
    }

    /// Remote effects are opaque: treated like running a command.
    pub fn kind(&self) -> (k: ToolKind)
        ensures
            k == ToolKind::Execute,
    {
        ToolKind::Execute
    }

    /// `<name>: <first 80 characters of the arguments>` (their compact
    /// form when they are JSON).
    pub fn describe_call(&self, args: &str) -> (r: String)
        ensures
            r@ == self.name@ + ": "@ + (match json_canon(args@) {
                Some(c) => c,
                None => args@,
            }).take(if (match json_canon(args@) {
                Some(c) => c,
                None => args@,
            }).len() < 80 {
                (match json_canon(args@) {
                    Some(c) => c,
                    None => args@,
                }).len() as int
            } else {
                80
            }),
    {
        let text = match canonical_json(args) {
            Some(c) => to_chars(c.as_str()),
            None => to_chars(args),
        };
        let n = if text.len() < 80 {
            text.len()
        } else {
            80
        };
        let mut v = to_chars(self.name.as_str());
        extend_str(&mut v, ": ");
        let head = crate::text::slice_to_vec(text.as_slice(), 0, n);
        extend(&mut v, head.as_slice());
        assert(head@ =~= text@.take(n as int));
        from_chars(v.as_slice())
    }
}

/// What a call sends: the arguments object, or none for `null`; any other
/// value is refused.
pub open spec fn arguments_spec(args: Seq<char>) -> Result<Option<Seq<char>>, Seq<char>> {
    match json_kind_of(args) {
        JsonKind::Object => Ok(Some(args)),
        JsonKind::Null => Ok(None),
        _ => Err("arguments must be a JSON object, got: "@ + match json_canon(args) {
            Some(c) => c,
            None => args,
        }),
    }
}

/// See `arguments_spec`.
pub fn call_arguments(args: &str) -> (r: Result<Option<String>, String>)
    ensures
        match (r, arguments_spec(args@)) {
            (Ok(Some(a)), Ok(Some(b))) => a@ == b,
            (Ok(None), Ok(None)) => true,
            (Err(a), Err(b)) => a@ == b,
            _ => false,
        },
{
    match json_kind(args) {
        JsonKind::Object => Ok(Some(args.to_string())),
        JsonKind::Null => Ok(None),
        _ => {
            let mut v = to_chars("arguments must be a JSON object, got: ");
            match canonical_json(args) {
                Some(c) => extend_str(&mut v, c.as_str()),
                None => extend_str(&mut v, args),
            }
            Err(from_chars(v.as_slice()))
        },
    }
}

/// One piece of a tool result.
pub enum ContentBlock {
    Text(String),
    /// Anything else (an image, a resource): its JSON form, when it has one.
    Other(Option<String>),
}

pub open spec fn block_text(b: ContentBlock) -> Seq<char> {
    match b {
        ContentBlock::Text(t) => t@,
        ContentBlock::Other(Some(j)) => "[non-text content: "@ + j@ + "]"@,
        ContentBlock::Other(None) => "[non-text content]"@,
    }
}

/// The result as plain text for the model: text blocks as they are,
/// anything else as a placeholder, one per line.
pub open spec fn flattened(blocks: Seq<ContentBlock>) -> Seq<char> {
    join(blocks.map_values(|b: ContentBlock| block_text(b)), "\n"@)
}

/// See `flattened`.
pub fn flatten_content(blocks: &Vec<ContentBlock>) -> (r: String)
    ensures
        r@ == flattened(blocks@),
{
    let ghost bt = blocks@.map_values(|b: ContentBlock| block_text(b));
    let mut parts: Vec<Vec<char>> = Vec::new();
    let mut i: usize = 0;
    while i < blocks.len()
        invariant
            i <= blocks@.len(),
            bt == blocks@.map_values(|b: ContentBlock| block_text(b)),
            views(parts@) =~= bt.take(i as int),
        decreases blocks@.len() - i,
    {
        let p = match &blocks[i] {
            ContentBlock::Text(t) => to_chars(t.as_str()),
            ContentBlock::Other(Some(j)) => {
                let mut v = to_chars("[non-text content: ");
                extend_str(&mut v, j.as_str());
                extend_str(&mut v, "]");
                v
            },
            ContentBlock::Other(None) => to_chars("[non-text content]"),
        };
        assert(p@ == bt[i as int]);
        let ghost before = views(parts@);
        parts.push(p);
        assert(views(parts@) =~= before.push(bt[i as int]));
        assert(bt.take(i + 1) =~= bt.take(i as int).push(bt[i as int]));
        i = i + 1;
    }
    assert(bt.take(blocks@.len() as int) =~= bt);
    let nl = vec!['\n'];
    assert(nl@ =~= "\n"@) by {
        reveal_strlit("\n");
    }
    let text = join_exec(parts.as_slice(), nl.as_slice());
    from_chars(text.as_slice())
}

/// How a call ended.
pub enum CallOutcome {
    /// No answer within `CALL_TIMEOUT_SECS`.
    TimedOut,
    /// The call failed; the transport's message.
    Failed(String),
    /// The server answered; whether it flagged an error.
    Answered { content: Vec<ContentBlock>, is_error: Option<bool> },
}

/// What the tool reports: a timeout or a failure as errors; an answer as
/// its text capped at 400 lines and 40000 bytes, an error if the server
/// flagged one, with a stand-in when the text is empty.
pub open spec fn call_report_spec(o: CallOutcome) -> (bool, Seq<char>) {
    match o {
        CallOutcome::TimedOut => (true, "mcp tool timed out after 60s"@),
        CallOutcome::Failed(e) => (true, "mcp call failed: "@ + e@),
        CallOutcome::Answered { content, is_error } => {
            let text = truncated(flattened(content@), 400, 40000);
            let err = match is_error {
                Some(b) => b,
                None => false,
            };
            if err {
                (true, if text.len() == 0 {
                    "mcp tool reported an error"@
                } else {
                    text
                })
            } else {
                (false, if text.len() == 0 {
                    "(empty result)"@
                } else {
                    text
                })
            }
        },
    }
}

/// See `call_report_spec`.
pub fn call_report(o: &CallOutcome) -> (r: ToolOutput)
    ensures
        (r.is_error, r.content@) == call_report_spec(*o),
{
    match o {
        CallOutcome::TimedOut => ToolOutput::error("mcp tool timed out after 60s"),
        CallOutcome::Failed(e) => {
            let mut v = to_chars("mcp call failed: ");
            extend_str(&mut v, e.as_str());
            ToolOutput { content: from_chars(v.as_slice()), is_error: true }
        },
        CallOutcome::Answered { content, is_error } => {
            let flat = flatten_content(content);
            let text = truncate_output(flat.as_str(), 400, 40000);
            let err = match is_error {
                Some(b) => *b,
                None => false,
            };
            let empty = text.as_str().is_empty();
            if err {
                if empty {
                    ToolOutput::error("mcp tool reported an error")
                } else {
                    ToolOutput { content: text, is_error: true }
                }
            } else {
                if empty {
                    ToolOutput::ok("(empty result)")
                } else {
                    ToolOutput { content: text, is_error: false }
                }
            }
        },
    }
}

} // verus!
