//! The built-in tools as the model sees them (name, description, argument
//! schema, permission class, one-line call summary) and the decisions of
//! their runs: the shell timeout and report, the search and listing
//! reports, and the write confirmation.
use vstd::prelude::*;
use vstd::utf8::encode_utf8;

use crate::json::{json_as_str, json_get, json_member, json_string_of};
use crate::permissions::ToolKind;
use crate::permissions::{glob_is_match, glob_match};
use crate::text::{decimal, extend_str, from_chars, join, join_exec, push_decimal, to_chars, trim_end, trim_end_exec, views};
use crate::tools::{truncate_output, truncated, ToolOutput};

verus! {

/// The string argument `key` of a call's arguments object, or `?`.
pub open spec fn arg_or_unknown(args: Seq<char>, key: Seq<char>) -> Seq<char> {
    match json_member(args, key) {
        Some(m) => match json_string_of(m) {
            Some(s) => s,
            None => "?"@,
        },
        None => "?"@,
    }
}

/// The string argument `key` of a call's arguments object (JSON text).
pub fn string_arg(args: &str, key: &str) -> (r: Option<String>)
    ensures
        match r {
            Some(s) => json_member(args@, key@) is Some && json_string_of(json_member(args@, key@).unwrap())
                == Some(s@),
            None => json_member(args@, key@) is None || json_string_of(json_member(args@, key@).unwrap()) is None,
        },
{
    match json_get(args, key) {
        Some(m) => json_as_str(m.as_str()),
        None => None,
    }
}

/// `<tool>: <argument>`, the argument shown as `?` when absent.
fn summary(tool: &str, args: &str, key: &str) -> (r: String)
    ensures
        r@ == tool@ + ": "@ + arg_or_unknown(args@, key@),
{
    let mut v = to_chars(tool);
    extend_str(&mut v, ": ");
    match string_arg(args, key) {
        Some(s) => extend_str(&mut v, s.as_str()),
        None => extend_str(&mut v, "?"),
    }
    from_chars(v.as_slice())
}

/// Runs a shell command.
pub struct BashTool;

/// Reads a text file.
pub struct ReadTool;

/// Creates or overwrites a file.
pub struct WriteTool;

/// Replaces text in a file.
pub struct EditTool;

/// Finds files by name pattern.
pub struct GlobTool;

/// Searches file contents.
pub struct GrepTool;

pub const BASH_SCHEMA: &'static str = "{\"properties\":{\"command\":{\"description\":\"Shell command to run\",\"type\":\"string\"},\"timeout_secs\":{\"description\":\"Timeout in seconds (default 120, max 600)\",\"type\":\"integer\"}},\"required\":[\"command\"],\"type\":\"object\"}";

pub const READ_SCHEMA: &'static str = "{\"properties\":{\"limit\":{\"description\":\"Max lines to return (default 2000)\",\"type\":\"integer\"},\"offset\":{\"description\":\"1-based line to start from\",\"type\":\"integer\"},\"path\":{\"description\":\"File path (absolute or relative to cwd)\",\"type\":\"string\"}},\"required\":[\"path\"],\"type\":\"object\"}";

pub const WRITE_SCHEMA: &'static str = "{\"properties\":{\"content\":{\"description\":\"Full file content\",\"type\":\"string\"},\"path\":{\"description\":\"File path\",\"type\":\"string\"}},\"required\":[\"path\",\"content\"],\"type\":\"object\"}";

pub const EDIT_SCHEMA: &'static str = "{\"properties\":{\"new_string\":{\"description\":\"Replacement text\",\"type\":\"string\"},\"old_string\":{\"description\":\"Exact text to find\",\"type\":\"string\"},\"path\":{\"type\":\"string\"},\"replace_all\":{\"description\":\"Replace every occurrence (default false)\",\"type\":\"boolean\"}},\"required\":[\"path\",\"old_string\",\"new_string\"],\"type\":\"object\"}";

pub const GLOB_SCHEMA: &'static str = "{\"properties\":{\"path\":{\"description\":\"Directory to search (default cwd)\",\"type\":\"string\"},\"pattern\":{\"description\":\"Glob pattern, e.g. **/*.toml\",\"type\":\"string\"}},\"required\":[\"pattern\"],\"type\":\"object\"}";

pub const GREP_SCHEMA: &'static str = "{\"properties\":{\"case_insensitive\":{\"type\":\"boolean\"},\"glob\":{\"description\":\"Only files matching this glob, e.g. *.rs\",\"type\":\"string\"},\"path\":{\"description\":\"Directory or file to search (default cwd)\",\"type\":\"string\"},\"pattern\":{\"description\":\"Regular expression\",\"type\":\"string\"}},\"required\":[\"pattern\"],\"type\":\"object\"}";

impl BashTool {
    pub fn name(&self) -> (r: &'static str)
        ensures
            r@ == "bash"@,
    {
        "bash"
    }

    pub fn description(&self) -> (r: &'static str)
        ensures
            r@ == "Run a shell command in the workspace. Returns stdout+stderr and exit code. Not interactive."@,
    {
        "Run a shell command in the workspace. Returns stdout+stderr and exit code. Not interactive."
    }

    /// The arguments schema, as JSON text.
    pub fn schema(&self) -> (r: &'static str)
        ensures
            r@ == BASH_SCHEMA@,
    {
        BASH_SCHEMA
    }

    pub fn kind(&self) -> (k: ToolKind)
        ensures
            k == ToolKind::Execute,
    {
        ToolKind::Execute
    }

    /// `bash: <command>`.
    pub fn describe_call(&self, args: &str) -> (r: String)
        ensures
            r@ == "bash"@ + ": "@ + arg_or_unknown(args@, "command"@),
    {
        summary("bash", args, "command")
    }
}

impl ReadTool {
    pub fn name(&self) -> (r: &'static str)
        ensures
            r@ == "read"@,
    {
        "read"
    }

    pub fn description(&self) -> (r: &'static str)
        ensures
            r@ == "Read a text file. Returns numbered lines. Use offset/limit for large files."@,
    {
        "Read a text file. Returns numbered lines. Use offset/limit for large files."
    }

    /// The arguments schema, as JSON text.
    pub fn schema(&self) -> (r: &'static str)
        ensures
            r@ == READ_SCHEMA@,
    {
        READ_SCHEMA
    }

    pub fn kind(&self) -> (k: ToolKind)
        ensures
            k == ToolKind::ReadOnly,
    {
        ToolKind::ReadOnly
    }

    /// `read: <path>`.
    pub fn describe_call(&self, args: &str) -> (r: String)
        ensures
            r@ == "read"@ + ": "@ + arg_or_unknown(args@, "path"@),
    {
        summary("read", args, "path")
    }
}

impl EditTool {
    pub fn name(&self) -> (r: &'static str)
        ensures
            r@ == "edit"@,
    {
        "edit"
    }

    pub fn description(&self) -> (r: &'static str)
        ensures
            r@ == "Replace old_string with new_string in a file. old_string must match the file exactly and be unique (or set replace_all)."@,
    {
        "Replace old_string with new_string in a file. old_string must match the file exactly and be unique (or set replace_all)."
    }

    /// The arguments schema, as JSON text.
    pub fn schema(&self) -> (r: &'static str)
        ensures
            r@ == EDIT_SCHEMA@,
    {
        EDIT_SCHEMA
    }

    pub fn kind(&self) -> (k: ToolKind)
        ensures
            k == ToolKind::Edit,
    {
        ToolKind::Edit
    }

    /// `edit: <path>`.
    pub fn describe_call(&self, args: &str) -> (r: String)
        ensures
            r@ == "edit"@ + ": "@ + arg_or_unknown(args@, "path"@),
    {
        summary("edit", args, "path")
    }
}

impl GlobTool {
    pub fn name(&self) -> (r: &'static str)
        ensures
            r@ == "glob"@,
    {
        "glob"
    }

    pub fn description(&self) -> (r: &'static str)
        ensures
            r@ == "Find files by name pattern, e.g. **/*.rs. Respects .gitignore. Newest first."@,
    {
        "Find files by name pattern, e.g. **/*.rs. Respects .gitignore. Newest first."
    }

    /// The arguments schema, as JSON text.
    pub fn schema(&self) -> (r: &'static str)
        ensures
            r@ == GLOB_SCHEMA@,
    {
        GLOB_SCHEMA
    }

    pub fn kind(&self) -> (k: ToolKind)
        ensures
            k == ToolKind::ReadOnly,
    {
        ToolKind::ReadOnly
    }

    /// `glob: <pattern>`.
    pub fn describe_call(&self, args: &str) -> (r: String)
        ensures
            r@ == "glob"@ + ": "@ + arg_or_unknown(args@, "pattern"@),
    {
        summary("glob", args, "pattern")
    }
}

impl GrepTool {
    pub fn name(&self) -> (r: &'static str)
        ensures
            r@ == "grep"@,
    {
        "grep"
    }

    pub fn description(&self) -> (r: &'static str)
        ensures
            r@ == "Search file contents with a regex. Respects .gitignore. Returns file:line matches."@,
    {
        "Search file contents with a regex. Respects .gitignore. Returns file:line matches."
    }

    /// The arguments schema, as JSON text.
    pub fn schema(&self) -> (r: &'static str)
        ensures
            r@ == GREP_SCHEMA@,
    {
        GREP_SCHEMA
    }

    pub fn kind(&self) -> (k: ToolKind)
        ensures
            k == ToolKind::ReadOnly,
    {
        ToolKind::ReadOnly
    }

    /// `grep: <pattern>`.
    pub fn describe_call(&self, args: &str) -> (r: String)
        ensures
            r@ == "grep"@ + ": "@ + arg_or_unknown(args@, "pattern"@),
    {
        summary("grep", args, "pattern")
    }
}

/// `write: <path> (<n> bytes)`, `n` the UTF-8 length of the content
/// argument (0 when absent).
pub open spec fn write_summary(args: Seq<char>) -> Seq<char> {
    "write: "@ + arg_or_unknown(args, "path"@) + " ("@ + decimal(
        match json_member(args, "content"@) {
            Some(m) => match json_string_of(m) {
                Some(s) => (encode_utf8(s).len() as usize) as nat,
                None => 0,
            },
            None => 0,
        },
    ) + " bytes)"@
}

impl WriteTool {
    pub fn name(&self) -> (r: &'static str)
        ensures
            r@ == "write"@,
    {
        "write"
    }

    pub fn description(&self) -> (r: &'static str)
        ensures
            r@ == "Create or overwrite a file with the given content."@,
    {
        "Create or overwrite a file with the given content."
    }

    /// The arguments schema, as JSON text.
    pub fn schema(&self) -> (r: &'static str)
        ensures
            r@ == WRITE_SCHEMA@,
    {
        WRITE_SCHEMA
    }

    pub fn kind(&self) -> (k: ToolKind)
        ensures
            k == ToolKind::Edit,
    {
        ToolKind::Edit
    }

    /// See `write_summary`.
    pub fn describe_call(&self, args: &str) -> (r: String)
        ensures
            r@ == write_summary(args@),
    {
        let mut v = to_chars("write: ");
        match string_arg(args, "path") {
            Some(p) => extend_str(&mut v, p.as_str()),
            None => extend_str(&mut v, "?"),
        }
        extend_str(&mut v, " (");
        let n: usize = match string_arg(args, "content") {
            Some(c) => c.as_str().len(),
            None => 0,
        };
        push_decimal(&mut v, n as u64);
        extend_str(&mut v, " bytes)");
        from_chars(v.as_slice())
    }

    /// The confirmation of a write: `wrote <n> bytes to <path>`.
    pub fn done_message(&self, path: &str, content: &str) -> (r: String)
        ensures
            r@ == "wrote "@ + decimal((encode_utf8(content@).len() as usize) as nat) + " bytes to "@ + path@,
    {
        let mut v = to_chars("wrote ");
        push_decimal(&mut v, content.len() as u64);
        extend_str(&mut v, " bytes to ");
        extend_str(&mut v, path);
        from_chars(v.as_slice())
    }
}

// ---------------------------------------------------------------------------
// The shell run
// ---------------------------------------------------------------------------

/// The shell timeout in seconds: 120 unless asked, at most 600.
pub open spec fn bash_timeout_spec(asked: Option<u64>) -> u64 {
    let t = match asked {
        Some(s) => s,
        None => 120,
    };
    if t > 600 {
        600
    } else {
        t
    }
}

impl BashTool {
    /// See `bash_timeout_spec`.
    pub fn timeout_secs(&self, asked: Option<u64>) -> (r: u64)
        ensures
            r == bash_timeout_spec(asked),
    {
        let t = match asked {
            Some(s) => s,
            None => 120,
        };
        if t > 600 {
            600
        } else {
            t
        }
    }

    /// The tag progress events of a command carry: `bash:` and the first 24
    /// characters of the command.
    pub fn call_tag(&self, command: &str) -> (r: String)
        ensures
            r@ == "bash:"@ + (if command@.len() > 24 {
                command@.take(24)
            } else {
                command@
            }),
    {
        let cs = to_chars(command);
        let mut v = to_chars("bash:");
        let ghost head = v@;
        let n = if cs.len() > 24 {
            24
        } else {
            cs.len()
        };
        let mut i: usize = 0;
        while i < n
            invariant
                i <= n <= cs@.len(),
                v@ == head + cs@.take(i as int),
            decreases n - i,
        {
            v.push(cs[i]);
            assert(cs@.take(i + 1) =~= cs@.take(i as int).push(cs@[i as int]));
            i = i + 1;
        }
        assert(cs@.take(n as int) =~= (if command@.len() > 24 {
            command@.take(24)
        } else {
            command@
        }));
        from_chars(v.as_slice())
    }
}

/// How a shell command ended.
pub enum BashEnd {
    /// The process exited; `code` is absent when a signal ended it.
    Exited { success: bool, code: Option<i32> },
    /// Waiting for the process failed.
    WaitFailed(String),
    /// The timeout ran out (the process tree was killed).
    TimedOut,
    /// The user cancelled (the process tree was killed).
    Cancelled,
}

/// Decimal text of a signed number.
pub open spec fn signed_decimal(n: int) -> Seq<char> {
    if n < 0 {
        "-"@ + decimal((-n) as nat)
    } else {
        decimal(n as nat)
    }
}

/// What a shell run reports, given the collected output lines and how the
/// command ended; the output is capped at 400 lines and 40000 bytes.
pub open spec fn bash_report_spec(collected: Seq<char>, end: BashEnd, timeout: u64) -> (bool, Seq<char>) {
    let out = truncated(collected, 400, 40000);
    match end {
        BashEnd::TimedOut => (true, "command timed out after "@ + decimal(timeout as nat) + "s\n"@ + out),
        BashEnd::Cancelled => (true, "command cancelled by user"@),
        BashEnd::Exited { success, code } => if success {
            (false, if out.len() == 0 {
                "(no output, exit 0)"@
            } else {
                out
            })
        } else {
            (true, "exit code "@ + signed_decimal(
                match code {
                    Some(c) => c as int,
                    None => -1,
                },
            ) + "\n"@ + out)
        },
        BashEnd::WaitFailed(e) => (true, "wait failed: "@ + e@ + "\n"@ + out),
    }
}

fn push_signed(v: &mut Vec<char>, n: i32)
    ensures
        final(v)@ == old(v)@ + signed_decimal(n as int),
{
    if n < 0 {
        v.push('-');
        let m: i64 = -(n as i64);
        push_decimal(v, m as u64);
        proof {
            reveal_strlit("-");
        }
    } else {
        push_decimal(v, n as u64);
    }
}

impl BashTool {
    /// The result of a shell run (see `bash_report_spec`).
    pub fn report(&self, collected: &str, end: &BashEnd, timeout: u64) -> (r: ToolOutput)
        ensures
            (r.is_error, r.content@) == bash_report_spec(collected@, *end, timeout),
    {
        let out = truncate_output(collected, 400, 40000);
        match end {
            BashEnd::TimedOut => {
                let mut v = to_chars("command timed out after ");
                push_decimal(&mut v, timeout);
                extend_str(&mut v, "s\n");
                extend_str(&mut v, out.as_str());
                ToolOutput { content: from_chars(v.as_slice()), is_error: true }
            },
            BashEnd::Cancelled => ToolOutput::error("command cancelled by user"),
            BashEnd::Exited { success, code } => {
                if *success {
                    if out.as_str().is_empty() {
                        ToolOutput::ok("(no output, exit 0)")
                    } else {
                        ToolOutput { content: out, is_error: false }
                    }
                } else {
                    let c: i32 = match code {
                        Some(c) => *c,
                        None => -1,
                    };
                    let mut v = to_chars("exit code ");
                    push_signed(&mut v, c);
                    extend_str(&mut v, "\n");
                    extend_str(&mut v, out.as_str());
                    ToolOutput { content: from_chars(v.as_slice()), is_error: true }
                }
            },
            BashEnd::WaitFailed(e) => {
                let mut v = to_chars("wait failed: ");
                extend_str(&mut v, e.as_str());
                extend_str(&mut v, "\n");
                extend_str(&mut v, out.as_str());
                ToolOutput { content: from_chars(v.as_slice()), is_error: true }
            },
        }
    }
}

// ---------------------------------------------------------------------------
// Search and listing reports
// ---------------------------------------------------------------------------

pub open spec fn str_views(v: Seq<String>) -> Seq<Seq<char>> {
    v.map_values(|s: String| s@)
}

/// `v` joined with `sep`.
pub fn join_strings(v: &Vec<String>, sep: &str) -> (r: String)
    ensures
        r@ == join(str_views(v@), sep@),
{
    let mut pieces: Vec<Vec<char>> = Vec::new();
    let mut i: usize = 0;
    while i < v.len()
        invariant
            i <= v@.len(),
            views(pieces@) =~= str_views(v@).take(i as int),
        decreases v@.len() - i,
    {
        let ghost before = pieces@;
        pieces.push(to_chars(v[i].as_str()));
        assert(views(pieces@) =~= views(before).push(v@[i as int]@));
        i = i + 1;
    }
    assert(str_views(v@).take(v@.len() as int) =~= str_views(v@));
    let sc = to_chars(sep);
    let r = join_exec(pieces.as_slice(), sc.as_slice());
    from_chars(r.as_slice())
}

/// Most matches a search reports.
pub const MAX_MATCHES: usize = 500;

/// Most files a listing reports.
pub const MAX_RESULTS: usize = 500;

impl GrepTool {
    /// The regex searched for: case-insensitive searches get `(?i)`.
    pub fn pattern(&self, pattern: &str, case_insensitive: bool) -> (r: String)
        ensures
            r@ == (if case_insensitive {
                "(?i)"@ + pattern@
            } else {
                pattern@
            }),
    {
        if case_insensitive {
            let mut v = to_chars("(?i)");
            extend_str(&mut v, pattern);
            from_chars(v.as_slice())
        } else {
            pattern.to_string()
        }
    }

    /// One match: `<file>:<line number>: <line without trailing space>`.
    pub fn hit(&self, file: &str, line_number: u64, line: &str) -> (r: String)
        ensures
            r@ == file@ + ":"@ + decimal(line_number as nat) + ": "@ + trim_end(line@),
    {
        let mut v = to_chars(file);
        extend_str(&mut v, ":");
        push_decimal(&mut v, line_number);
        extend_str(&mut v, ": ");
        let lc = to_chars(line);
        let t = trim_end_exec(lc.as_slice());
        let ghost before = v@;
        let mut i: usize = 0;
        while i < t.len()
            invariant
                i <= t@.len(),
                v@ == before + t@.take(i as int),
            decreases t@.len() - i,
        {
            v.push(t[i]);
            assert(t@.take(i + 1) =~= t@.take(i as int).push(t@[i as int]));
            i = i + 1;
        }
        assert(t@.take(t@.len() as int) =~= t@);
        from_chars(v.as_slice())
    }

    /// Does a file pass the search's `glob` filter: by its name or by its
    /// path?
    pub fn selects(&self, glob: &str, name: &str, path: &str) -> (r: bool)
        ensures
            r == (glob_match(glob@, name@) || glob_match(glob@, path@)),
    {
        glob_is_match(glob, name) || glob_is_match(glob, path)
    }

    /// The search result: `no matches`, or the matches one per line, capped
    /// at 510 lines and 100000 bytes, with a note when the match cap was hit.
    pub fn report(&self, hits: &Vec<String>) -> (r: ToolOutput)
        ensures
            !r.is_error,
            r.content@ == (if hits@.len() == 0 {
                "no matches"@
            } else {
                truncated(join(str_views(hits@), "\n"@), 510, 100000) + (if hits@.len() >= 500 {
                    "\n[result capped at 500 matches — narrow the pattern]"@
                } else {
                    Seq::empty()
                })
            }),
    {
        if hits.len() == 0 {
            return ToolOutput::ok("no matches");
        }
        let joined = join_strings(hits, "\n");
        let out = truncate_output(joined.as_str(), MAX_MATCHES + 10, 100000);
        let mut v = to_chars(out.as_str());
        if hits.len() >= MAX_MATCHES {
            extend_str(&mut v, "\n[result capped at 500 matches — narrow the pattern]");
        }
        ToolOutput { content: from_chars(v.as_slice()), is_error: false }
    }
}

/// A file found by a listing: its displayed path and modification time
/// (seconds and nanoseconds since the epoch).
pub type Found = (Seq<char>, (u64, u32));

pub open spec fn newer_or_same(a: (u64, u32), b: (u64, u32)) -> bool {
    a.0 > b.0 || (a.0 == b.0 && a.1 >= b.1)
}

/// `x` placed after every file at least as new.
pub open spec fn insert_newest(t: Seq<Found>, x: Found) -> Seq<Found>
    decreases t.len(),
{
    if t.len() == 0 || newer_or_same(t.last().1, x.1) {
        t.push(x)
    } else {
        insert_newest(t.drop_last(), x).push(t.last())
    }
}

/// The stable sort of files, newest first.
pub open spec fn newest_first(s: Seq<Found>) -> Seq<Found>
    decreases s.len(),
{
    if s.len() == 0 {
        s
    } else {
        insert_newest(newest_first(s.drop_last()), s.last())
    }
}

pub open spec fn found_views(v: Seq<(String, (u64, u32))>) -> Seq<Found> {
    v.map_values(|f: (String, (u64, u32))| (f.0@, f.1))
}

proof fn lemma_insert_newest_at(t: Seq<Found>, x: Found, p: int)
    requires
        0 <= p <= t.len(),
        forall|j: int| p <= j < t.len() ==> !newer_or_same(#[trigger] t[j].1, x.1),
        p == 0 || newer_or_same(t[p - 1].1, x.1),
    ensures
        insert_newest(t, x) == t.take(p).push(x) + t.skip(p),
    decreases t.len(),
{
    if p == t.len() {
        assert(t.take(p) =~= t);
        assert(t.skip(p) =~= Seq::<Found>::empty());
        assert(t.push(x) =~= t.take(p).push(x) + t.skip(p));
    } else {
        assert(!newer_or_same(t.last().1, x.1));
        let d = t.drop_last();
        assert forall|j: int| p <= j < d.len() implies !newer_or_same(#[trigger] d[j].1, x.1) by {
            assert(d[j] == t[j]);
        }
        if p > 0 {
            assert(d[p - 1] == t[p - 1]);
        }
        lemma_insert_newest_at(d, x, p);
        assert(d.take(p) =~= t.take(p));
        assert(d.skip(p).push(t.last()) =~= t.skip(p));
        assert((d.take(p).push(x) + d.skip(p)).push(t.last()) =~= t.take(p).push(x) + t.skip(p));
    }
}

/// What `globset` reports of a pattern that does not compile.
pub uninterp spec fn glob_error_of(pattern: Seq<char>) -> Option<Seq<char>>;

/// `globset::GlobBuilder::new(pattern).literal_separator(false).build()`:
/// the error's text when the pattern does not compile. Depends on the
/// pattern alone.
#[verifier::external_body]
fn glob_error(pattern: &str) -> (r: Option<String>)
    ensures
        match r {
            Some(e) => glob_error_of(pattern@) == Some(e@),
            None => glob_error_of(pattern@) is None,
        },
{
    globset::GlobBuilder::new(pattern).literal_separator(false).build().err().map(|e| e.to_string())
}

/// A pattern that does not compile is refused: ``bad glob `<pattern>`: <error>``.
pub fn check_glob(pattern: &str) -> (r: Result<(), String>)
    ensures
        match r {
            Ok(()) => glob_error_of(pattern@) is None,
            Err(m) => glob_error_of(pattern@) is Some && m@ == "bad glob `"@ + pattern@ + "`: "@
                + glob_error_of(pattern@).unwrap(),
        },
{
    match glob_error(pattern) {
        Some(e) => {
            let mut v = to_chars("bad glob `");
            extend_str(&mut v, pattern);
            extend_str(&mut v, "`: ");
            extend_str(&mut v, e.as_str());
            Err(from_chars(v.as_slice()))
        },
        None => Ok(()),
    }
}

impl GlobTool {
    /// Does a file match the pattern: by its path below the search root or
    /// by its name?
    pub fn selects(&self, pattern: &str, relative: &str, name: &str) -> (r: bool)
        ensures
            r == (glob_match(pattern@, relative@) || glob_match(pattern@, name@)),
    {
        glob_is_match(pattern, relative) || glob_is_match(pattern, name)
    }

    /// The files to list: newest first (files equally new keep their
    /// order), at most 500.
    pub fn order(&self, files: &Vec<(String, (u64, u32))>) -> (r: Vec<String>)
        ensures
            str_views(r@) == newest_first(found_views(files@)).take(
                if files@.len() > 500 { 500 } else { files@.len() as int },
            ).map_values(|f: Found| f.0),
    {
        let ghost fv = found_views(files@);
        let mut sorted: Vec<(String, (u64, u32))> = Vec::new();
        let mut i: usize = 0;
        while i < files.len()
            invariant
                i <= files@.len(),
                fv == found_views(files@),
                found_views(sorted@) == newest_first(fv.take(i as int)),
            decreases files@.len() - i,
        {
            proof {
                assert(fv.take(i + 1).drop_last() =~= fv.take(i as int));
                assert(fv.take(i + 1).last() == fv[i as int]);
            }
            let x = (files[i].0.clone(), files[i].1);
            let ghost t = found_views(sorted@);
            let mut p: usize = sorted.len();
            while p > 0 && !(sorted[p - 1].1.0 > x.1.0 || (sorted[p - 1].1.0 == x.1.0
                && sorted[p - 1].1.1 >= x.1.1))
                invariant
                    p <= sorted@.len(),
                    t == found_views(sorted@),
                    forall|j: int| p <= j < t.len() ==> !newer_or_same(#[trigger] t[j].1, x.1),
                decreases p,
            {
                assert(t[p - 1] == (sorted@[p - 1].0@, sorted@[p - 1].1));
                p = p - 1;
            }
            proof {
                if p > 0 {
                    assert(t[p - 1] == (sorted@[p - 1].0@, sorted@[p - 1].1));
                }
                lemma_insert_newest_at(t, (x.0@, x.1), p as int);
            }
            let ghost before = sorted@;
            sorted.insert(p, x);
            assert(found_views(sorted@) =~= t.take(p as int).push((x.0@, x.1)) + t.skip(p as int)) by {
                assert forall|j: int| 0 <= j < sorted@.len() implies found_views(sorted@)[j] == (t.take(p as int).push(
                    (x.0@, x.1),
                ) + t.skip(p as int))[j] by {
                    if j < p {
                        assert(sorted@[j] == before[j]);
                    } else if j > p {
                        assert(sorted@[j] == before[j - 1]);
                    }
                }
            }
            i = i + 1;
        }
        assert(fv.take(files@.len() as int) =~= fv);
        let ghost sv = found_views(sorted@);
        let n = if sorted.len() > MAX_RESULTS {
            MAX_RESULTS
        } else {
            sorted.len()
        };
        let mut r: Vec<String> = Vec::new();
        let mut k: usize = 0;
        while k < n
            invariant
                k <= n <= sorted@.len(),
                sv == found_views(sorted@),
                str_views(r@) =~= sv.take(k as int).map_values(|f: Found| f.0),
            decreases n - k,
        {
            let ghost before = r@;
            r.push(sorted[k].0.clone());
            assert(str_views(r@) =~= str_views(before).push(sv[k as int].0));
            assert(sv.take(k + 1).map_values(|f: Found| f.0) =~= sv.take(k as int).map_values(|f: Found| f.0).push(sv[k as int].0));
            k = k + 1;
        }
        proof {
            assert(sv.len() == files@.len()) by {
                lemma_newest_len(fv);
            }
        }
        r
    }

    /// The listing result: `no files match`, or the paths one per line,
    /// capped at 505 lines and 50000 bytes.
    pub fn report(&self, files: &Vec<String>) -> (r: ToolOutput)
        ensures
            !r.is_error,
            r.content@ == (if files@.len() == 0 {
                "no files match"@
            } else {
                truncated(join(str_views(files@), "\n"@), 505, 50000)
            }),
    {
        if files.len() == 0 {
            return ToolOutput::ok("no files match");
        }
        let joined = join_strings(files, "\n");
        let out = truncate_output(joined.as_str(), MAX_RESULTS + 5, 50000);
        ToolOutput { content: out, is_error: false }
    }
}

proof fn lemma_insert_newest_len(t: Seq<Found>, x: Found)
    ensures
        insert_newest(t, x).len() == t.len() + 1,
    decreases t.len(),
{
    if t.len() > 0 && !newer_or_same(t.last().1, x.1) {
        lemma_insert_newest_len(t.drop_last(), x);
    }
}

proof fn lemma_newest_len(s: Seq<Found>)
    ensures
        newest_first(s).len() == s.len(),
    decreases s.len(),
{
    if s.len() > 0 {
        lemma_newest_len(s.drop_last());
        lemma_insert_newest_len(newest_first(s.drop_last()), s.last());
    }
}

} // verus!
