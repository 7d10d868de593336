//! The system prompt and the canned tasks behind slash commands. Written
//! for a mid-sized local model: short, imperative, one instruction per
//! sentence.
use vstd::prelude::*;

use crate::paths::{home_dir, home_file, home_file_path};
use crate::permissions::Mode;
use crate::text::{extend_str, from_chars, to_chars};

verus! {

pub const PLAN_LINE: &'static str = "You are in PLAN mode: analyze deeply, clarify, then plan. You may only read and search — do not edit files or run commands. Work in this exact order:\n1. Restate the request in one sentence.\n2. Investigate read-only until you understand every file and behavior the task touches.\n3. List your assumptions and grey areas. If ANYTHING is ambiguous — scope, edge cases, which of several approaches — ask the user numbered clarifying questions and STOP. Wait for answers. Never plan around an ambiguity you could ask about.\n4. Only when requirements are clear, present the final plan: numbered steps naming the exact files to change, ending with how to verify the result.\n5. Close with: \"Proceed with this plan? Switch to auto mode and say 'proceed' to run it hands-off.\"";

pub const WORK_LINE: &'static str = "Work step by step. Verify your changes by running commands (tests, builds) when possible.";

pub const SYSTEM_HEAD: &'static str = "You are Rocinante, a coding agent working in a terminal.\n\nWorking directory: ";

pub const SYSTEM_OS: &'static str = "\nOperating system: ";

pub const SYSTEM_MODE: &'static str = "\n\n";

pub const SYSTEM_RULES: &'static str = "\n\nRules:\n- Use tools to inspect the project before making changes. Do not guess file contents.\n- The bash tool already runs in the working directory. Never prefix commands with `cd`.\n- Use relative paths.\n- Before editing a file, read it first.\n- To edit, copy the exact text from the file into old_string.\n- When a command or edit fails, read the error and try a different approach.\n- Keep your text responses short. Report what you did and what you found.\n- When the task is done, summarize the outcome in one or two sentences.\n\nDiscipline:\n- Before a non-trivial change, state your assumption and approach in one sentence, then act.\n- Write the minimum code that solves the problem. No speculative abstractions, options, or helpers for imagined future needs.\n- Surgical edits only: never reformat, rename, or clean up code unrelated to the task.\n- Prefer editing existing files over creating new ones. Never create documentation files unless asked.\n- After changing code, verify it: run the project's build or tests before declaring the task done.\n- Independent read-only lookups and task delegations may be issued together in one message; they run in parallel.\n\nTool call format: use the provided tools with valid JSON arguments. Never describe a tool call in prose — actually call the tool.";

pub const REMEMBER_HEAD: &'static str = "Record a global preference for this user in ";

pub const REMEMBER_RULE: &'static str = " (use this exact absolute path). The rule to record is: ";

pub const REMEMBER_TAIL: &'static str = "\n\nRead the file first if it exists; create it with the headings `# LESSONS`, `## Preferences`, and `## Rules` if not. Decide whether this is a Preference (a taste or default) or a Rule (a hard do/don't) and append ONE concise imperative bullet under the right heading. If a near-equivalent bullet already exists, refine it in place instead of duplicating. Edit surgically — never reformat or remove unrelated lines. Re-read the file afterward to confirm it is well-formed. Then tell the user in one line what you recorded and where.";

pub const COMMIT_PROMPT: &'static str = "Run `git status` and `git diff` (and `git diff --staged`) to see all pending changes. Group them into one atomic commit — or say why they should be several, and do only the first. Stage exactly the files that belong together (never `git add -A` blindly, never include unrelated files), then commit with a concise imperative message that says what changed and why. Report the commit hash and message.";

pub const INIT_PROMPT: &'static str = "Explore this project: read the README if present, the build manifests, the directory layout, and skim key source files. Then write the file .rocinante/PILOT.md — a concise guide for an AI coding agent working here. Use exactly these sections: a 2-3 sentence description of what the project is; build/test/run commands; an architecture map (main directories/modules and their roles); project conventions worth knowing. Keep it under 60 lines. If .rocinante/PILOT.md already exists, read it first and update it rather than rewriting from scratch.";

pub const CONFIG_OPENING: &'static str = "Load the rocinante-config skill first — call the `skill` tool with {\"name\": \"rocinante-config\"} and follow it exactly.";

pub const CONFIG_READ_HEAD: &'static str = " Then read the Rocinante user config file at ";

pub const CONFIG_READ_TAIL: &'static str = " (use this exact absolute path). If it does not exist, say so and list what can be configured. Otherwise summarize each section present in plain language: which model aliases exist (with their num_ctx), which providers, subagent profiles, permission rules, and MCP/LSP servers. Do not edit anything.";

pub const CONFIG_EDIT_HEAD: &'static str = " Then update the Rocinante user config file at ";

pub const CONFIG_EDIT_MID: &'static str = " (use this exact absolute path) to satisfy this request: ";

pub const CONFIG_EDIT_TAIL: &'static str = ". Read the file first if it exists; create it if not. Edit surgically — never remove or reformat unrelated sections. Re-read the file after editing to verify the TOML is valid. When done, tell the user: new model aliases appear in /model immediately; other config sections apply on the next launch.";

pub const PILOT_HEAD: &'static str = "\n\nProject instructions (from .rocinante/PILOT.md — follow these):\n";

/// Start of the injected project-memory section: the anchor used to strip
/// memory from a live system prompt; every section text begins with it.
pub const BRAINBOX_SECTION_MARKER: &'static str = "\n\nProject memory (from previous sessions";

pub const BRAINBOX_MID: &'static str = " — may be stale; verify before relying on it):\n";

pub const BRAINBOX_TAIL: &'static str = "\n\nFull project memory is in .rocinante/BRAINBOX.md — read it with the `read` tool when you need earlier decisions, state, or gotchas.";

/// Start of the injected global-rules section.
pub const LESSONS_SECTION_MARKER: &'static str = "\n\nGlobal user rules (from ~/.rocinante/LESSONS.md";

pub const LESSONS_MID: &'static str = " — always follow these):\n";

pub const LESSONS_FILE: &'static str = ".rocinante/LESSONS.md";

pub const CONFIG_FILE: &'static str = ".rocinante/config.toml";

pub open spec fn mode_line(mode: Mode) -> Seq<char> {
    match mode {
        Mode::Plan => PLAN_LINE@,
        _ => WORK_LINE@,
    }
}

pub open spec fn system_text(cwd: Seq<char>, mode: Mode, os: Seq<char>) -> Seq<char> {
    SYSTEM_HEAD@ + cwd + SYSTEM_OS@ + os + SYSTEM_MODE@ + mode_line(mode) + SYSTEM_RULES@
}

/// The system prompt: identity, working directory, operating system, the
/// mode's working order (plan mode: read-only, clarify, then plan), and the
/// standing rules.
pub fn system_prompt(cwd: &str, mode: Mode, os: &str) -> (r: String)
    ensures
        r@ == system_text(cwd@, mode, os@),
{
    let mut v = to_chars(SYSTEM_HEAD);
    extend_str(&mut v, cwd);
    extend_str(&mut v, SYSTEM_OS);
    extend_str(&mut v, os);
    extend_str(&mut v, SYSTEM_MODE);
    match mode {
        Mode::Plan => extend_str(&mut v, PLAN_LINE),
        _ => extend_str(&mut v, WORK_LINE),
    }
    extend_str(&mut v, SYSTEM_RULES);
    from_chars(v.as_slice())
}

/// The system-prompt section for the project's instructions file.
pub fn pilot_section(content: &str) -> (r: String)
    ensures
        r@ == PILOT_HEAD@ + content@,
{
    let mut v = to_chars(PILOT_HEAD);
    extend_str(&mut v, content);
    from_chars(v.as_slice())
}

/// The system-prompt section for project memory: only its compact head is
/// injected, with a pointer to the full file.
pub fn brainbox_section(head: &str) -> (r: String)
    ensures
        r@ == BRAINBOX_SECTION_MARKER@ + BRAINBOX_MID@ + head@ + BRAINBOX_TAIL@,
{
    let mut v = to_chars(BRAINBOX_SECTION_MARKER);
    extend_str(&mut v, BRAINBOX_MID);
    extend_str(&mut v, head);
    extend_str(&mut v, BRAINBOX_TAIL);
    from_chars(v.as_slice())
}

/// The system-prompt section for the user's global rules, injected whole.
pub fn lessons_section(content: &str) -> (r: String)
    ensures
        r@ == LESSONS_SECTION_MARKER@ + LESSONS_MID@ + content@,
{
    let mut v = to_chars(LESSONS_SECTION_MARKER);
    extend_str(&mut v, LESSONS_MID);
    extend_str(&mut v, content);
    from_chars(v.as_slice())
}

pub open spec fn remember_text(home: Option<Seq<char>>, rule: Seq<char>) -> Seq<char> {
    REMEMBER_HEAD@ + home_file(home, LESSONS_FILE@) + REMEMBER_RULE@ + rule + REMEMBER_TAIL@
}

/// The task behind `/remember <rule>` for a given home directory: record
/// the rule in the global lessons file, named by its absolute path.
pub fn remember_prompt_in(home: Option<&str>, rule: &str) -> (r: String)
    ensures
        r@ == remember_text(
            match home {
                Some(h) => Some(h@),
                None => None,
            },
            rule@,
        ),
{
    let path = home_file_path(home, LESSONS_FILE);
    let mut v = to_chars(REMEMBER_HEAD);
    extend_str(&mut v, path.as_str());
    extend_str(&mut v, REMEMBER_RULE);
    extend_str(&mut v, rule);
    extend_str(&mut v, REMEMBER_TAIL);
    from_chars(v.as_slice())
}

/// The task behind `/remember <rule>` for the current user.
pub fn remember_prompt(rule: &str) -> (r: String)
    ensures
        exists|home: Option<Seq<char>>| r@ == remember_text(home, rule@),
{
    let home = home_dir();
    let r = match &home {
        Some(h) => remember_prompt_in(Some(h.as_str()), rule),
        None => remember_prompt_in(None, rule),
    };
    proof {
        let w: Option<Seq<char>> = match home {
            Some(h) => Some(h@),
            None => None,
        };
        assert(r@ == remember_text(w, rule@));
    }
    r
}

/// The task behind `/commit`.
pub fn commit_prompt() -> (r: &'static str)
    ensures
        r@ == COMMIT_PROMPT@,
{
    COMMIT_PROMPT
}

/// The task behind `/init`.
pub fn init_prompt() -> (r: &'static str)
    ensures
        r@ == INIT_PROMPT@,
{
    INIT_PROMPT
}

/// `/config` with no request summarises the user config read-only; with a
/// request it edits the file to satisfy it.
pub open spec fn config_text(home: Option<Seq<char>>, request: Seq<char>) -> Seq<char> {
    let path = home_file(home, CONFIG_FILE@);
    if request.len() == 0 {
        CONFIG_OPENING@ + CONFIG_READ_HEAD@ + path + CONFIG_READ_TAIL@
    } else {
        CONFIG_OPENING@ + CONFIG_EDIT_HEAD@ + path + CONFIG_EDIT_MID@ + request + CONFIG_EDIT_TAIL@
    }
}

/// The task behind `/config` for a given home directory (see `config_text`).
pub fn config_prompt_in(home: Option<&str>, request: &str) -> (r: String)
    ensures
        r@ == config_text(
            match home {
                Some(h) => Some(h@),
                None => None,
            },
            request@,
        ),
{
    let path = home_file_path(home, CONFIG_FILE);
    let req = to_chars(request);
    let mut v = to_chars(CONFIG_OPENING);
    if req.len() == 0 {
        extend_str(&mut v, CONFIG_READ_HEAD);
        extend_str(&mut v, path.as_str());
        extend_str(&mut v, CONFIG_READ_TAIL);
    } else {
        extend_str(&mut v, CONFIG_EDIT_HEAD);
        extend_str(&mut v, path.as_str());
        extend_str(&mut v, CONFIG_EDIT_MID);
        extend_str(&mut v, request);
        extend_str(&mut v, CONFIG_EDIT_TAIL);
    }
    from_chars(v.as_slice())
}

/// The task behind `/config` for the current user.
pub fn config_prompt(request: &str) -> (r: String)
    ensures
        exists|home: Option<Seq<char>>| r@ == config_text(home, request@),
{
    let home = home_dir();
    let r = match &home {
        Some(h) => config_prompt_in(Some(h.as_str()), request),
        None => config_prompt_in(None, request),
    };
    proof {
        let w: Option<Seq<char>> = match home {
            Some(h) => Some(h@),
            None => None,
        };
        assert(r@ == config_text(w, request@));
    }
    r
}

} // verus!
