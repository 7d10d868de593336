//! Configuration values: the sections of the config file, the default crew
//! of subagents, providers added from the environment, validation, and how
//! a model name resolves. Tables keyed by name are held as lists of
//! `(name, value)` pairs in key order, each name once.
use vstd::prelude::*;

use crate::permissions::{str_views, Mode};
use crate::text::{chars_eq, extend_str, find, find_exec, from_chars, slice_to_vec, str_eq, to_chars};

verus! {

/// The configuration every layer is merged over: a local Ollama provider and
/// a cloud main model, so the program runs with no config on a machine with
/// Ollama.
pub const BUILTIN_CONFIG: &'static str = r#"
[defaults]
model = "main"
mode = "normal"
num_ctx = 32768
keep_alive = "10m"

[providers.ollama]
type = "ollama"

[models.main]
provider = "ollama"
model = "glm-5.2:cloud"
"#;

/// Where an Ollama provider listens unless configured otherwise.
pub const DEFAULT_OLLAMA_URL: &'static str = "http://localhost:11434";

/// The Anthropic endpoint unless configured otherwise.
pub const DEFAULT_ANTHROPIC_URL: &'static str = "https://api.anthropic.com";

/// The Gemini endpoint unless configured otherwise.
pub const DEFAULT_GEMINI_URL: &'static str = "https://generativelanguage.googleapis.com";

/// The variable holding the Anthropic key unless configured otherwise.
pub const ANTHROPIC_KEY_ENV: &'static str = "ANTHROPIC_API_KEY";

/// The variable holding the Gemini key unless configured otherwise.
pub const GEMINI_KEY_ENV: &'static str = "GEMINI_API_KEY";

/// `[defaults]`.
pub struct Defaults {
    /// Model alias (key into `[models]`) for the main agent.
    pub model: String,
    pub mode: Mode,
    pub num_ctx: u32,
    pub keep_alive: String,
    /// Extended thinking on by default.
    pub think: bool,
}

impl Default for Defaults {
    fn default() -> (d: Defaults)
        ensures
            d.model@ == "main"@,
            d.mode == Mode::Normal,
            d.num_ctx == 32768,
            d.keep_alive@ == "10m"@,
            !d.think,
    {
        Defaults {
            model: crate::text::own("main"),
            mode: Mode::Normal,
            num_ctx: 32768,
            keep_alive: crate::text::own("10m"),
            think: false,
        }
    }
}

/// `[providers.<name>]`.
#[derive(Debug)]
pub enum ProviderConfig {
    Ollama { base_url: String },
    /// Any OpenAI-compatible endpoint.
    Openai { base_url: String, api_key_env: String },
    Anthropic { base_url: String, api_key_env: String },
    Gemini { base_url: String, api_key_env: String },
}

/// The environment variable that holds a provider's API key (none for
/// Ollama).
pub open spec fn key_env(p: ProviderConfig) -> Option<Seq<char>> {
    match p {
        ProviderConfig::Ollama { .. } => None,
        ProviderConfig::Openai { api_key_env, .. } => Some(api_key_env@),
        ProviderConfig::Anthropic { api_key_env, .. } => Some(api_key_env@),
        ProviderConfig::Gemini { api_key_env, .. } => Some(api_key_env@),
    }
}

/// `[agents.<name>]`: a subagent profile.
#[derive(Debug)]
pub struct AgentProfileConfig {
    pub description: String,
    /// Model alias (key into `[models]`).
    pub model: String,
    pub tools: Vec<String>,
    pub max_turns: u32,
    pub system_prompt: Option<String>,
}

pub struct ProfileView {
    pub description: Seq<char>,
    pub model: Seq<char>,
    pub tools: Seq<Seq<char>>,
    pub max_turns: u32,
    pub system_prompt: Option<Seq<char>>,
}

impl View for AgentProfileConfig {
    type V = ProfileView;

    open spec fn view(&self) -> ProfileView {
        ProfileView {
            description: self.description@,
            model: self.model@,
            tools: str_views(self.tools@),
            max_turns: self.max_turns,
            system_prompt: crate::model::opt_view(self.system_prompt),
        }
    }
}

/// `[mcp.<name>]`: exactly one of `command` (stdio) or `url` (HTTP).
#[derive(Debug)]
pub struct McpServerConfig {
    pub command: Option<String>,
    pub args: Vec<String>,
    pub env: Vec<(String, String)>,
    pub env_from: Vec<(String, String)>,
    pub url: Option<String>,
    /// Only these tool names (unprefixed) are exposed; all when unset.
    pub only_tools: Option<Vec<String>>,
}

/// `[lsp.<name>]`: overrides a builtin server field by field, or defines a
/// new one.
#[derive(Debug)]
pub struct LspServerConfig {
    pub command: Option<String>,
    pub args: Vec<String>,
    pub filetypes: Vec<String>,
    pub root_markers: Vec<String>,
    pub env: Vec<(String, String)>,
    pub disabled: bool,
}

impl Default for LspServerConfig {
    fn default() -> (c: LspServerConfig)
        ensures
            c.command is None,
            c.args@.len() == 0,
            c.filetypes@.len() == 0,
            c.root_markers@.len() == 0,
            c.env@.len() == 0,
            !c.disabled,
    {
        LspServerConfig {
            command: None,
            args: Vec::new(),
            filetypes: Vec::new(),
            root_markers: Vec::new(),
            env: Vec::new(),
            disabled: false,
        }
    }
}

/// `[brainbox]`.
#[derive(Debug)]
pub struct BrainboxConfig {
    pub enabled: bool,
    pub update_every_turns: u32,
    /// Model alias for the refresher; the session's main model when unset.
    pub model: Option<String>,
}

impl Default for BrainboxConfig {
    fn default() -> (c: BrainboxConfig)
        ensures
            c.enabled,
            c.update_every_turns == 5,
            c.model is None,
    {
        BrainboxConfig { enabled: true, update_every_turns: 5, model: None }
    }
}

/// `[skills]`.
#[derive(Debug)]
pub struct SkillsConfig {
    /// Skill directories beyond the user's and the project's.
    pub extra_dirs: Vec<String>,
}

// ---------------------------------------------------------------------------
// Tables keyed by name
// ---------------------------------------------------------------------------

pub open spec fn keys_of<V>(s: Seq<(String, V)>) -> Seq<Seq<char>> {
    s.map_values(|p: (String, V)| p.0@)
}

fn has_key<V>(s: &Vec<(String, V)>, k: &str) -> (r: bool)
    ensures
        r == keys_of(s@).contains(k@),
{
    let kc = to_chars(k);
    let mut i: usize = 0;
    while i < s.len()
        invariant
            i <= s@.len(),
            kc@ == k@,
            forall|j: int| 0 <= j < i ==> keys_of(s@)[j] != k@,
        decreases s@.len() - i,
    {
        let c = to_chars(s[i].0.as_str());
        if chars_eq(c.as_slice(), kc.as_slice()) {
            assert(keys_of(s@)[i as int] == k@);
            return true;
        }
        i = i + 1;
    }
    false
}

// ---------------------------------------------------------------------------
// The default crew
// ---------------------------------------------------------------------------

pub const NAOMI_DESCRIPTION: &'static str = "Explorer — fast read-only codebase and web exploration, search, and summary.";

pub const NAOMI_PROMPT: &'static str = "You are Naomi, the Rocinante's systems engineer. Explore read-only and report precisely: cite file:line evidence, summarize what you found, never modify anything. You are the workhorse for 'go find and understand X'.";

pub const MILLER_DESCRIPTION: &'static str = "Researcher — investigate a question across the repo and the web, return a sourced brief.";

pub const MILLER_PROMPT: &'static str = "You are Miller, a detective. Follow the leads: gather evidence from the codebase, and for anything on the internet load the web-research skill first — call the `skill` tool with {\"name\": \"web-research\"} and follow it exactly (search and fetch via curl with the `bash` tool). Return a findings brief citing file:line for code and source URLs for web facts. Use bash ONLY for web research; never modify anything.";

pub const ALEX_DESCRIPTION: &'static str = "Planner — investigate read-only, then return a concrete numbered implementation plan.";

pub const ALEX_PROMPT: &'static str = "You are Alex, the pilot. Plot the route: investigate read-only, then return a concrete, numbered implementation plan naming the files to change. Do not write code.";

pub const BOBBIE_DESCRIPTION: &'static str = "Critic — adversarial read-only audit of the code for bugs, edge cases, and security.";

pub const BOBBIE_PROMPT: &'static str = "You are Bobbie, a Martian marine. Review adversarially: hunt bugs, unhandled edge cases, security holes, and risky assumptions in the code or diff. Default to skeptical; report concrete findings with locations. Never modify anything.";

pub const AMOS_DESCRIPTION: &'static str = "Debugger — root-cause a failure: reproduce, isolate, hypothesize, minimal fix, verify.";

pub const AMOS_PROMPT: &'static str = "You are Amos, the mechanic. Root-cause the problem: reproduce it, isolate it, form one hypothesis, propose the minimal fix, and state how to verify. Blunt and practical. No scope creep. Report only; the main agent applies the fix.";

pub const HOLDEN_DESCRIPTION: &'static str = "Oracle — escalate a hard design or correctness question; returns a reasoned verdict.";

pub const HOLDEN_PROMPT: &'static str = "You are Holden, the captain. Reason carefully about the hard call put to you and return a clear verdict with the tradeoffs that decided it. Read-only.";

pub const CAMINA_DESCRIPTION: &'static str = "ML engineer — preprocessing, model selection/tuning, validation, and evaluation for regression and classification; runs Python/R and loads the ML skills.";

pub const CAMINA_PROMPT: &'static str = "You are Camina Drummer — blunt, exact, no wasted motion. Work in this exact order:\n1. Use the `glob` tool to find documentation near the data (*codebook*, *dictionary*, *protocol*, README*) and `read` what you find.\n2. Call the `skill` tool to load the ONE skill matching the task, then follow its instructions exactly: preparing data for ML -> {\"name\": \"ml-preprocessing\"}; choosing/training/tuning a model -> {\"name\": \"ml-modeling\"}; metrics, calibration, or SHAP -> {\"name\": \"ml-evaluation\"}; recommendations or market-basket analysis -> {\"name\": \"recommender-systems\"}; text/NLP work -> {\"name\": \"spacy\"} or {\"name\": \"nltk\"}; data not yet explored -> {\"name\": \"exploratory-data-analysis\"}.\n3. At every decision gate — which variables to drop, scaling choice, feature reduction, model family, recalibration — STOP and return the options with your recommendation instead of guessing.\n4. Run code with the `bash` tool using python3 (or Rscript in R projects). Save every figure to a file and report its path; never call plt.show(). Never touch the test set until final evaluation. Report numbers, not adjectives; if a command fails, read the error and fix that exact problem.";

pub const AVASARALA_DESCRIPTION: &'static str = "Data scientist — EDA, statistics, SQL/DuckDB analytics, and data wrangling; runs Python/R and loads the data-science skills.";

pub const AVASARALA_PROMPT: &'static str = "You are Avasarala, the formidable stateswoman — precise, rigorous, unimpressed by sloppy analysis. Work in this exact order:\n1. Use the `glob` tool to find documentation near the data (*codebook*, *dictionary*, *protocol*, *SAP*, README*) and `read` what you find.\n2. Call the `skill` tool to load the ONE skill matching the task, then follow its instructions exactly: exploring/summarizing a dataset -> {\"name\": \"exploratory-data-analysis\"}; regression or survival modeling -> {\"name\": \"statistical-modeling\"}; SQL or large files -> {\"name\": \"sql-analytics\"}; messy raw data to clean -> {\"name\": \"data-wrangling\"}; building a data lake or star schema from a folder of files -> {\"name\": \"medallion-architecture\"}; DuckLake mechanics -> {\"name\": \"ducklake\"}; rendering a report or document -> {\"name\": \"quarto\"}.\n3. Run code with the `bash` tool using python3 (or Rscript in R projects). Save every figure to a file and report its path. Never open an interactive viewer or call plt.show().\n4. Report: methods used, assumptions checked, results with numbers and 95% CIs, figure paths. If a command fails, read the error and fix that exact problem.";


pub open spec fn read_only_tools() -> Seq<Seq<char>> {
    seq!["read"@, "grep"@, "glob"@]
}

pub open spec fn researcher_tools() -> Seq<Seq<char>> {
    seq!["read"@, "grep"@, "glob"@, "bash"@, "skill"@]
}

pub open spec fn analyst_tools() -> Seq<Seq<char>> {
    seq!["read"@, "grep"@, "glob"@, "bash"@, "write"@, "edit"@, "skill"@]
}

pub open spec fn crew_member(description: Seq<char>, prompt: Seq<char>, tools: Seq<Seq<char>>, max_turns: u32) -> ProfileView {
    ProfileView { description, model: "main"@, tools, max_turns, system_prompt: Some(prompt) }
}

/// The default crew, in order: read-only specialists plus a researcher
/// with `bash` for the web and two analysts that run code. All use the
/// `main` model.
pub open spec fn crew() -> Seq<(Seq<char>, ProfileView)> {
    seq![
        ("naomi"@, crew_member(NAOMI_DESCRIPTION@, NAOMI_PROMPT@, read_only_tools(), 15)),
        ("miller"@, crew_member(MILLER_DESCRIPTION@, MILLER_PROMPT@, researcher_tools(), 15)),
        ("alex"@, crew_member(ALEX_DESCRIPTION@, ALEX_PROMPT@, read_only_tools(), 12)),
        ("bobbie"@, crew_member(BOBBIE_DESCRIPTION@, BOBBIE_PROMPT@, read_only_tools(), 12)),
        ("amos"@, crew_member(AMOS_DESCRIPTION@, AMOS_PROMPT@, read_only_tools(), 12)),
        ("holden"@, crew_member(HOLDEN_DESCRIPTION@, HOLDEN_PROMPT@, read_only_tools(), 10)),
        ("camina"@, crew_member(CAMINA_DESCRIPTION@, CAMINA_PROMPT@, analyst_tools(), 35)),
        ("avasarala"@, crew_member(AVASARALA_DESCRIPTION@, AVASARALA_PROMPT@, analyst_tools(), 30)),
    ]
}

pub open spec fn named_views(s: Seq<(&'static str, AgentProfileConfig)>) -> Seq<(Seq<char>, ProfileView)> {
    s.map_values(|p: (&'static str, AgentProfileConfig)| (p.0@, p.1@))
}

fn strings(v: &[&str]) -> (r: Vec<String>)
    ensures
        str_views(r@) == v@.map_values(|s: &str| s@),
{
    let mut r: Vec<String> = Vec::new();
    let mut i: usize = 0;
    while i < v.len()
        invariant
            i <= v@.len(),
            str_views(r@) == v@.map_values(|s: &str| s@).take(i as int),
        decreases v@.len() - i,
    {
        let ghost before = str_views(r@);
        r.push(crate::text::own(v[i]));
        assert(str_views(r@) =~= before.push(v@[i as int]@));
        assert(v@.map_values(|s: &str| s@).take(i + 1) =~= v@.map_values(|s: &str| s@).take(i as int).push(v@[i as int]@));
        i = i + 1;
    }
    assert(v@.map_values(|s: &str| s@).take(v@.len() as int) =~= v@.map_values(|s: &str| s@));
    r
}

fn member(description: &'static str, prompt: &'static str, tools: &[&str], max_turns: u32) -> (p: AgentProfileConfig)
    ensures
        p@ == crew_member(description@, prompt@, tools@.map_values(|s: &str| s@), max_turns),
{
    AgentProfileConfig {
        description: crate::text::own(description),
        model: crate::text::own("main"),
        tools: strings(tools),
        max_turns,
        system_prompt: Some(crate::text::own(prompt)),
    }
}

/// The default crew of subagents (see `crew`).
pub fn builtin_agents() -> (r: Vec<(&'static str, AgentProfileConfig)>)
    ensures
        named_views(r@) == crew(),
{
    let ro = ["read", "grep", "glob"];
    let rs = ["read", "grep", "glob", "bash", "skill"];
    let an = ["read", "grep", "glob", "bash", "write", "edit", "skill"];
    assert(ro@.map_values(|s: &str| s@) =~= read_only_tools());
    assert(rs@.map_values(|s: &str| s@) =~= researcher_tools());
    assert(an@.map_values(|s: &str| s@) =~= analyst_tools());
    let r = vec![
        ("naomi", member(NAOMI_DESCRIPTION, NAOMI_PROMPT, &ro, 15)),
        ("miller", member(MILLER_DESCRIPTION, MILLER_PROMPT, &rs, 15)),
        ("alex", member(ALEX_DESCRIPTION, ALEX_PROMPT, &ro, 12)),
        ("bobbie", member(BOBBIE_DESCRIPTION, BOBBIE_PROMPT, &ro, 12)),
        ("amos", member(AMOS_DESCRIPTION, AMOS_PROMPT, &ro, 12)),
        ("holden", member(HOLDEN_DESCRIPTION, HOLDEN_PROMPT, &ro, 10)),
        ("camina", member(CAMINA_DESCRIPTION, CAMINA_PROMPT, &an, 35)),
        ("avasarala", member(AVASARALA_DESCRIPTION, AVASARALA_PROMPT, &an, 30)),
    ];
    assert(named_views(r@) =~= crew());
    r
}

pub open spec fn agent_views(s: Seq<(String, AgentProfileConfig)>) -> Seq<(Seq<char>, ProfileView)> {
    s.map_values(|p: (String, AgentProfileConfig)| (p.0@, p.1@))
}

/// The crew members whose names `keys` does not hold yet, in crew order.
pub open spec fn missing_crew(keys: Seq<Seq<char>>, c: Seq<(Seq<char>, ProfileView)>) -> Seq<(Seq<char>, ProfileView)>
    decreases c.len(),
{
    if c.len() == 0 {
        Seq::empty()
    } else {
        let rest = missing_crew(keys, c.drop_last());
        if keys.contains(c.last().0) {
            rest
        } else {
            rest.push(c.last())
        }
    }
}

fn has_key_before<V>(s: &Vec<(String, V)>, k: &str, end: usize) -> (r: bool)
    requires
        end <= s@.len(),
    ensures
        r == keys_of(s@).take(end as int).contains(k@),
{
    let kc = to_chars(k);
    let mut i: usize = 0;
    while i < end
        invariant
            i <= end <= s@.len(),
            kc@ == k@,
            forall|j: int| 0 <= j < i ==> keys_of(s@)[j] != k@,
        decreases end - i,
    {
        let c = to_chars(s[i].0.as_str());
        if chars_eq(c.as_slice(), kc.as_slice()) {
            assert(keys_of(s@).take(end as int)[i as int] == k@);
            return true;
        }
        i = i + 1;
    }
    proof {
        if keys_of(s@).take(end as int).contains(k@) {
            let j = choose|j: int| 0 <= j < end && keys_of(s@).take(end as int)[j] == k@;
            assert(keys_of(s@)[j] == k@);
        }
    }
    false
}

/// Add the default crew to `[agents]`; a user-defined agent of the same
/// name always wins.
pub fn inject_builtin_agents(agents: &mut Vec<(String, AgentProfileConfig)>)
    ensures
        agent_views(final(agents)@) == agent_views(old(agents)@) + missing_crew(
            keys_of(old(agents)@),
            crew(),
        ),
{
    let ghost start = agent_views(agents@);
    let ghost keys0 = keys_of(agents@);
    let old_len = agents.len();
    let mut rest = builtin_agents();
    let ghost cv = named_views(rest@);
    let n = rest.len();
    let mut i: usize = 0;
    assert(named_views(rest@) =~= cv.skip(0));
    while i < n
        invariant
            i <= n,
            n == cv.len(),
            old_len <= agents@.len(),
            named_views(rest@) == cv.skip(i as int),
            cv == crew(),
            agent_views(agents@) == start + missing_crew(keys0, cv.take(i as int)),
            start.len() == old_len,
            keys0 == keys_of(agents@).take(old_len as int),
        decreases n - i,
    {
        assert(named_views(rest@).len() == rest@.len());
        assert(rest@.len() == n - i);
        let ghost rv = named_views(rest@);
        let (name, profile) = rest.remove(0);
        assert(named_views(rest@) =~= rv.drop_first());
        assert(rv.drop_first() =~= cv.skip(i + 1));
        assert(rv[0] == (name@, profile@));
        assert(cv.take(i + 1).drop_last() =~= cv.take(i as int));
        assert(cv.take(i + 1).last() == cv[i as int]);
        assert(cv[i as int] == (name@, profile@));
        let present = has_key_before(agents, name, old_len);
        let ghost before = agent_views(agents@);
        if !present {
            agents.push((crate::text::own(name), profile));
            assert(agent_views(agents@) =~= before.push(cv[i as int]));
            assert(keys_of(agents@).take(old_len as int) =~= keys0);
        }
        i = i + 1;
    }
    assert(cv.take(n as int) =~= cv);
    assert(keys0 =~= keys_of(old(agents)@));
}

// ---------------------------------------------------------------------------
// Providers from the environment, validation, model names
// ---------------------------------------------------------------------------

pub open spec fn provider_key(p: ProviderConfig) -> Option<Seq<char>> {
    key_env(p)
}

/// The providers that work with no config once their key is in the
/// environment: (name, key variable, base URL).
pub open spec fn env_candidates() -> Seq<(Seq<char>, Seq<char>, Seq<char>)> {
    seq![
        ("anthropic"@, "ANTHROPIC_API_KEY"@, "https://api.anthropic.com"@),
        ("gemini"@, "GEMINI_API_KEY"@, "https://generativelanguage.googleapis.com"@),
        ("openai"@, "OPENAI_API_KEY"@, "https://api.openai.com/v1"@),
    ]
}

/// What a provider table holds, by name: the provider kind and its key
/// variable, if any.
pub open spec fn provider_summary(s: Seq<(String, ProviderConfig)>) -> Seq<(Seq<char>, Option<Seq<char>>)> {
    s.map_values(|p: (String, ProviderConfig)| (p.0@, key_env(p.1)))
}

/// The candidates added: those not already defined whose key variable is
/// present, in candidate order.
pub open spec fn env_added(keys: Seq<Seq<char>>, present: Seq<Seq<char>>, c: Seq<(Seq<char>, Seq<char>, Seq<char>)>) -> Seq<(Seq<char>, Option<Seq<char>>)>
    decreases c.len(),
{
    if c.len() == 0 {
        Seq::empty()
    } else {
        let rest = env_added(keys, present, c.drop_last());
        let (name, var, _) = c.last();
        if !keys.contains(name) && present.contains(var) {
            rest.push((name, Some(var)))
        } else {
            rest
        }
    }
}

fn env_provider(k: usize) -> (r: (&'static str, &'static str, ProviderConfig))
    requires
        k < 3,
    ensures
        r.0@ == env_candidates()[k as int].0,
        r.1@ == env_candidates()[k as int].1,
        key_env(r.2) == Some(env_candidates()[k as int].1),
        match r.2 {
            ProviderConfig::Anthropic { base_url, .. } => k == 0 && base_url@ == env_candidates()[0].2,
            ProviderConfig::Gemini { base_url, .. } => k == 1 && base_url@ == env_candidates()[1].2,
            ProviderConfig::Openai { base_url, .. } => k == 2 && base_url@ == env_candidates()[2].2,
            ProviderConfig::Ollama { .. } => false,
        },
{
    if k == 0 {
        (
            "anthropic",
            "ANTHROPIC_API_KEY",
            ProviderConfig::Anthropic {
                base_url: crate::text::own("https://api.anthropic.com"),
                api_key_env: crate::text::own("ANTHROPIC_API_KEY"),
            },
        )
    } else if k == 1 {
        (
            "gemini",
            "GEMINI_API_KEY",
            ProviderConfig::Gemini {
                base_url: crate::text::own("https://generativelanguage.googleapis.com"),
                api_key_env: crate::text::own("GEMINI_API_KEY"),
            },
        )
    } else {
        (
            "openai",
            "OPENAI_API_KEY",
            ProviderConfig::Openai {
                base_url: crate::text::own("https://api.openai.com/v1"),
                api_key_env: crate::text::own("OPENAI_API_KEY"),
            },
        )
    }
}

fn contains_str(v: &Vec<String>, k: &str) -> (r: bool)
    ensures
        r == str_views(v@).contains(k@),
{
    let kc = to_chars(k);
    let mut i: usize = 0;
    while i < v.len()
        invariant
            i <= v@.len(),
            kc@ == k@,
            forall|j: int| 0 <= j < i ==> str_views(v@)[j] != k@,
        decreases v@.len() - i,
    {
        let c = to_chars(v[i].as_str());
        if chars_eq(c.as_slice(), kc.as_slice()) {
            assert(str_views(v@)[i as int] == k@);
            return true;
        }
        i = i + 1;
    }
    false
}

/// Add the cloud providers whose key variable is in the environment
/// (`present` names the variables that are set); a user-defined provider
/// of the same name always wins.
pub fn inject_env_providers_with(providers: &mut Vec<(String, ProviderConfig)>, present: &Vec<String>)
    ensures
        provider_summary(final(providers)@) == provider_summary(old(providers)@) + env_added(
            keys_of(old(providers)@),
            str_views(present@),
            env_candidates(),
        ),
        final(providers)@.take(old(providers)@.len() as int) == old(providers)@,
{
    let ghost start = provider_summary(providers@);
    let ghost keys0 = keys_of(providers@);
    let old_len = providers.len();
    let mut k: usize = 0;
    while k < 3
        invariant
            k <= 3,
            old_len <= providers@.len(),
            provider_summary(providers@) == start + env_added(keys0, str_views(present@), env_candidates().take(k as int)),
            start == provider_summary(old(providers)@),
            keys0 == keys_of(providers@).take(old_len as int),
            keys0 == keys_of(old(providers)@),
            old_len == old(providers)@.len(),
            providers@.take(old_len as int) == old(providers)@,
        decreases 3 - k,
    {
        let (name, var, provider) = env_provider(k);
        assert(env_candidates().take(k + 1).drop_last() =~= env_candidates().take(k as int));
        assert(env_candidates().take(k + 1).last() == env_candidates()[k as int]);
        let defined = has_key_before(providers, name, old_len);
        let set = contains_str(present, var);
        if !defined && set {
            let ghost before = provider_summary(providers@);
            let ghost pre = providers@;
            providers.push((crate::text::own(name), provider));
            assert(provider_summary(providers@) =~= before.push((name@, Some(var@))));
            assert(keys_of(providers@).take(old_len as int) =~= keys_of(pre).take(old_len as int));
            assert(providers@.take(old_len as int) =~= pre.take(old_len as int));
        }
        k = k + 1;
    }
    assert(env_candidates().take(3) =~= env_candidates());
}

/// A config problem found at load.
#[derive(Debug)]
pub enum ConfigError {
    MissingApiKey { provider: String, var: String },
    UnknownDefaultModel(String),
    BadMcpServer(String),
}

pub enum ConfigErrorView {
    MissingApiKey { provider: Seq<char>, var: Seq<char> },
    UnknownDefaultModel(Seq<char>),
    BadMcpServer(Seq<char>),
}

impl View for ConfigError {
    type V = ConfigErrorView;

    open spec fn view(&self) -> ConfigErrorView {
        match self {
            ConfigError::MissingApiKey { provider, var } => ConfigErrorView::MissingApiKey { provider: provider@, var: var@ },
            ConfigError::UnknownDefaultModel(a) => ConfigErrorView::UnknownDefaultModel(a@),
            ConfigError::BadMcpServer(n) => ConfigErrorView::BadMcpServer(n@),
        }
    }
}

pub open spec fn error_text(e: ConfigErrorView) -> Seq<char> {
    match e {
        ConfigErrorView::MissingApiKey { provider, var } => "provider `"@ + provider + "` needs environment variable `"@ + var
            + "` (not set)"@,
        ConfigErrorView::UnknownDefaultModel(a) => "default model alias `"@ + a + "` is not defined in [models]"@,
        ConfigErrorView::BadMcpServer(n) => "mcp server `"@ + n + "` must set exactly one of `command` (stdio) or `url` (http)"@,
    }
}

impl ConfigError {
    /// The error as shown to the user.
    pub fn message(&self) -> (r: String)
        ensures
            r@ == error_text(self@),
    {
        let mut v: Vec<char> = Vec::new();
        match self {
            ConfigError::MissingApiKey { provider, var } => {
                extend_str(&mut v, "provider `");
                extend_str(&mut v, provider.as_str());
                extend_str(&mut v, "` needs environment variable `");
                extend_str(&mut v, var.as_str());
                extend_str(&mut v, "` (not set)");
            },
            ConfigError::UnknownDefaultModel(a) => {
                extend_str(&mut v, "default model alias `");
                extend_str(&mut v, a.as_str());
                extend_str(&mut v, "` is not defined in [models]");
            },
            ConfigError::BadMcpServer(n) => {
                extend_str(&mut v, "mcp server `");
                extend_str(&mut v, n.as_str());
                extend_str(&mut v, "` must set exactly one of `command` (stdio) or `url` (http)");
            },
        }
        from_chars(v.as_slice())
    }
}

/// The first provider (in table order) whose key variable is not set.
pub open spec fn first_missing_key(ps: Seq<(Seq<char>, Option<Seq<char>>)>, present: Seq<Seq<char>>) -> Option<(Seq<char>, Seq<char>)>
    decreases ps.len(),
{
    if ps.len() == 0 {
        None
    } else {
        match ps[0].1 {
            Some(var) => if !present.contains(var) {
                Some((ps[0].0, var))
            } else {
                first_missing_key(ps.drop_first(), present)
            },
            None => first_missing_key(ps.drop_first(), present),
        }
    }
}

/// An MCP server is well formed with exactly one of `command` and `url`.
pub open spec fn mcp_ok(m: McpServerConfig) -> bool {
    m.command is Some != m.url is Some
}

pub open spec fn first_bad_mcp(s: Seq<(String, McpServerConfig)>) -> Option<Seq<char>>
    decreases s.len(),
{
    if s.len() == 0 {
        None
    } else if !mcp_ok(s[0].1) {
        Some(s[0].0@)
    } else {
        first_bad_mcp(s.drop_first())
    }
}

/// Validation at load: every provider's key variable must be set (the
/// first that is not is reported), then every MCP server must set exactly
/// one transport.
pub open spec fn validation(providers: Seq<(String, ProviderConfig)>, mcp: Seq<(String, McpServerConfig)>, present: Seq<Seq<char>>) -> Option<ConfigErrorView> {
    match first_missing_key(provider_summary(providers), present) {
        Some((p, v)) => Some(ConfigErrorView::MissingApiKey { provider: p, var: v }),
        None => match first_bad_mcp(mcp) {
            Some(n) => Some(ConfigErrorView::BadMcpServer(n)),
            None => None,
        },
    }
}

/// Validate a loaded config (see `validation`); `present` names the
/// environment variables that are set.
pub fn validate(providers: &Vec<(String, ProviderConfig)>, mcp: &Vec<(String, McpServerConfig)>, present: &Vec<String>) -> (r: Result<(), ConfigError>)
    ensures
        match r {
            Ok(()) => validation(providers@, mcp@, str_views(present@)) is None,
            Err(e) => validation(providers@, mcp@, str_views(present@)) == Some(e@),
        },
{
    let ghost ps = provider_summary(providers@);
    let ghost pv = str_views(present@);
    let mut i: usize = 0;
    assert(ps.skip(0) =~= ps);
    while i < providers.len()
        invariant
            i <= providers@.len(),
            ps == provider_summary(providers@),
            pv == str_views(present@),
            first_missing_key(ps, pv) == first_missing_key(ps.skip(i as int), pv),
        decreases providers@.len() - i,
    {
        assert(ps.skip(i as int)[0] == (providers@[i as int].0@, key_env(providers@[i as int].1)));
        let var: Option<&String> = match &providers[i].1 {
            ProviderConfig::Ollama { .. } => None,
            ProviderConfig::Openai { api_key_env, .. } => Some(api_key_env),
            ProviderConfig::Anthropic { api_key_env, .. } => Some(api_key_env),
            ProviderConfig::Gemini { api_key_env, .. } => Some(api_key_env),
        };
        match var {
            Some(v) => {
                if !contains_str(present, v.as_str()) {
                    return Err(
                        ConfigError::MissingApiKey {
                            provider: crate::text::own(providers[i].0.as_str()),
                            var: crate::text::own(v.as_str()),
                        },
                    );
                }
            },
            None => {},
        }
        assert(ps.skip(i as int).drop_first() =~= ps.skip(i + 1));
        i = i + 1;
    }
    let mut j: usize = 0;
    assert(mcp@.skip(0) =~= mcp@);
    while j < mcp.len()
        invariant
            j <= mcp@.len(),
            first_missing_key(ps, pv) is None,
            ps == provider_summary(providers@),
            pv == str_views(present@),
            first_bad_mcp(mcp@) == first_bad_mcp(mcp@.skip(j as int)),
        decreases mcp@.len() - j,
    {
        assert(mcp@.skip(j as int)[0] == mcp@[j as int]);
        let m = &mcp[j].1;
        if m.command.is_some() == m.url.is_some() {
            return Err(ConfigError::BadMcpServer(crate::text::own(mcp[j].0.as_str())));
        }
        assert(mcp@.skip(j as int).drop_first() =~= mcp@.skip(j + 1));
        j = j + 1;
    }
    Ok(())
}

/// Where a model name leads: a configured alias, or a provider and model
/// name to use directly.
#[derive(Debug)]
pub enum ModelChoice {
    /// The `[models]` entry of that name.
    Alias(String),
    Direct { provider: String, model: String },
}

pub open spec fn first_ollama(s: Seq<(String, ProviderConfig)>) -> Option<Seq<char>>
    decreases s.len(),
{
    if s.len() == 0 {
        None
    } else if s[0].1 is Ollama {
        Some(s[0].0@)
    } else {
        first_ollama(s.drop_first())
    }
}

/// How a model name resolves: a configured alias first; then
/// `provider/model` when that provider is configured; then a bare model on
/// the first Ollama provider; otherwise nothing.
pub open spec fn model_choice(aliases: Seq<Seq<char>>, providers: Seq<(String, ProviderConfig)>, name: Seq<char>) -> Option<(bool, Seq<char>, Seq<char>)> {
    if aliases.contains(name) {
        Some((true, name, Seq::empty()))
    } else {
        match find(name, seq!['/']) {
            Some(i) => if keys_of(providers).contains(name.take(i)) {
                Some((false, name.take(i), name.skip(i + 1)))
            } else {
                match first_ollama(providers) {
                    Some(p) => Some((false, p, name)),
                    None => None,
                }
            },
            None => match first_ollama(providers) {
                Some(p) => Some((false, p, name)),
                None => None,
            },
        }
    }
}

/// Resolve a model name against the `[models]` aliases and the providers
/// (see `model_choice`; the first part says whether it is an alias).
pub fn resolve_model(aliases: &Vec<String>, providers: &Vec<(String, ProviderConfig)>, name: &str) -> (r: Option<ModelChoice>)
    ensures
        match r {
            Some(ModelChoice::Alias(a)) => model_choice(str_views(aliases@), providers@, name@) == Some((true, a@, Seq::<char>::empty())),
            Some(ModelChoice::Direct { provider, model }) => model_choice(str_views(aliases@), providers@, name@) == Some((false, provider@, model@)),
            None => model_choice(str_views(aliases@), providers@, name@) is None,
        },
{
    if contains_str(aliases, name) {
        let a = crate::text::own(name);
        assert(model_choice(str_views(aliases@), providers@, name@) == Some((true, a@, Seq::<char>::empty())));
        return Some(ModelChoice::Alias(a));
    }
    let c = to_chars(name);
    let slash = vec!['/'];
    assert(slash@ =~= seq!['/']);
    match find_exec(c.as_slice(), slash.as_slice()) {
        Some(i) => {
            proof {
                crate::text::lemma_find_some(c@, slash@, i as int);
            }
            let p = slice_to_vec(c.as_slice(), 0, i);
            let ps = from_chars(p.as_slice());
            if has_key(providers, ps.as_str()) {
                let cl = c.len();
                let m = slice_to_vec(c.as_slice(), i + 1, cl);
                assert(m@ =~= c@.skip(i + 1));
                assert(p@ =~= c@.take(i as int));
                return Some(ModelChoice::Direct { provider: ps, model: from_chars(m.as_slice()) });
            }
            assert(p@ =~= c@.take(i as int));
        },
        None => {},
    }
    let mut k: usize = 0;
    assert(providers@.skip(0) =~= providers@);
    while k < providers.len()
        invariant
            k <= providers@.len(),
            first_ollama(providers@) == first_ollama(providers@.skip(k as int)),
            !str_views(aliases@).contains(name@),
            match find(name@, seq!['/']) {
                Some(i) => !keys_of(providers@).contains(name@.take(i)),
                None => true,
            },
        decreases providers@.len() - k,
    {
        assert(providers@.skip(k as int)[0] == providers@[k as int]);
        match &providers[k].1 {
            ProviderConfig::Ollama { .. } => {
                return Some(
                    ModelChoice::Direct {
                        provider: crate::text::own(providers[k].0.as_str()),
                        model: crate::text::own(name),
                    },
                );
            },
            _ => {},
        }
        assert(providers@.skip(k as int).drop_first() =~= providers@.skip(k + 1));
        k = k + 1;
    }
    None
}

} // verus!
