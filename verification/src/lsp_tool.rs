//! The `lsp` tool: one tool, five actions. What an action asks of the
//! language server, and how the server's answers read. Lines and columns
//! are 1-based for the model and converted to the server's encoding both
//! ways.
use vstd::prelude::*;
use vstd::utf8::encode_utf8;

use crate::permissions::ToolKind;
use crate::positions::{byte_column, from_lsp_character, lsp_position, to_lsp_position, Encoding, Position};
use crate::text::{
    byte_len, contains, contains_exec, decimal, extend, extend_str, from_chars, join, join_exec, push_decimal,
    to_chars, trim, trim_exec, views,
};
use crate::tool_defs::{arg_or_unknown, string_arg};
use crate::tools::{truncate_output, truncated, ToolOutput};
use crate::uri::{uri_path, uri_to_path};

verus! {

/// Queries the language server.
pub struct LspTool;

pub const LSP_SCHEMA: &'static str = "{\"properties\":{\"action\":{\"enum\":[\"diagnostics\",\"definition\",\"references\",\"hover\",\"symbols\"],\"type\":\"string\"},\"column\":{\"description\":\"1-based column (definition/references/hover)\",\"type\":\"integer\"},\"line\":{\"description\":\"1-based line (definition/references/hover)\",\"type\":\"integer\"},\"path\":{\"description\":\"File to query\",\"type\":\"string\"},\"query\":{\"description\":\"Symbol name filter (symbols)\",\"type\":\"string\"}},\"required\":[\"action\",\"path\"],\"type\":\"object\"}";

/// What the tool answers when no server covers the file.
pub const NO_SERVER: &'static str = "no language server available for this file (unsupported filetype, binary not on PATH, or no project root marker)";

/// Most definitions listed.
pub const DEFINITION_CAP: usize = 10;

/// Most references listed.
pub const REFERENCES_CAP: usize = 20;

impl LspTool {
    pub fn name(&self) -> (r: &'static str)
        ensures
            r@ == "lsp"@,
    {
        "lsp"
    }

    pub fn description(&self) -> (r: &'static str)
        ensures
            r@ == "Query the language server. Actions: diagnostics (errors/warnings for a file), definition, references, hover (need line+column), symbols (optional query filter). line/column are 1-based."@,
    {
        "Query the language server. Actions: diagnostics (errors/warnings for a file), definition, references, hover (need line+column), symbols (optional query filter). line/column are 1-based."
    }

    /// The arguments schema, as JSON text.
    pub fn schema(&self) -> (r: &'static str)
        ensures
            r@ == LSP_SCHEMA@,
    {
        LSP_SCHEMA
    }

    pub fn kind(&self) -> (k: ToolKind)
        ensures
            k == ToolKind::ReadOnly,
    {
        ToolKind::ReadOnly
    }

    /// `lsp: <action> <path>`.
    pub fn describe_call(&self, args: &str) -> (r: String)
        ensures
            r@ == "lsp: "@ + arg_or_unknown(args@, "action"@) + " "@ + arg_or_unknown(args@, "path"@),
    {
        let mut v = to_chars("lsp: ");
        match string_arg(args, "action") {
            Some(s) => extend_str(&mut v, s.as_str()),
            None => extend_str(&mut v, "?"),
        }
        extend_str(&mut v, " ");
        match string_arg(args, "path") {
            Some(s) => extend_str(&mut v, s.as_str()),
            None => extend_str(&mut v, "?"),
        }
        from_chars(v.as_slice())
    }
}

/// The tool's arguments.
pub struct LspArgs {
    pub action: String,
    pub path: String,
    pub line: Option<u32>,
    pub column: Option<u32>,
    pub query: Option<String>,
}

/// What the server said it supports.
pub struct ServerCaps {
    pub definition: bool,
    pub references: bool,
    pub hover: bool,
    pub symbols: bool,
}

/// The actions that ask at a position.
#[derive(Debug, Clone, Copy, PartialEq, Eq, Structural)]
pub enum PositionAction {
    Definition,
    References,
    Hover,
}

/// What the tool does next.
pub enum LspStep {
    /// Answer this without asking the server.
    Done(ToolOutput),
    /// Sync the file and report its diagnostics.
    Diagnostics,
    /// Sync the file and ask at this server position.
    AtPosition { action: PositionAction, position: Position },
    /// Sync the file and list its symbols.
    Symbols,
}

pub open spec fn position_action(a: Seq<char>) -> Option<PositionAction> {
    if a == "definition"@ {
        Some(PositionAction::Definition)
    } else if a == "references"@ {
        Some(PositionAction::References)
    } else if a == "hover"@ {
        Some(PositionAction::Hover)
    } else {
        None
    }
}

pub open spec fn supported(caps: ServerCaps, a: PositionAction) -> bool {
    match a {
        PositionAction::Definition => caps.definition,
        PositionAction::References => caps.references,
        PositionAction::Hover => caps.hover,
    }
}

/// Both given and at least 1.
pub open spec fn one_based(line: Option<u32>, column: Option<u32>) -> Option<(u32, u32)> {
    match (line, column) {
        (Some(l), Some(c)) => if l >= 1 && c >= 1 {
            Some((l, c))
        } else {
            None
        },
        _ => None,
    }
}

pub open spec fn is_done(r: LspStep, is_error: bool, text: Seq<char>) -> bool {
    r matches LspStep::Done(o) && o.is_error == is_error && o.content@ == text
}

/// The step for `action`: diagnostics and symbols need nothing more (the
/// latter only if the server lists symbols); definition, references and
/// hover need a 1-based line and column, and a server that supports them;
/// any other action is refused.
pub open spec fn step_spec(
    action: Seq<char>,
    line: Option<u32>,
    column: Option<u32>,
    caps: ServerCaps,
    server: Seq<char>,
    content: Seq<char>,
    encoding: Encoding,
    r: LspStep,
) -> bool {
    if action == "diagnostics"@ {
        r is Diagnostics
    } else if action == "symbols"@ {
        if caps.symbols {
            r is Symbols
        } else {
            is_done(r, false, "the "@ + server + " server does not support symbols"@)
        }
    } else {
        match position_action(action) {
            Some(a) => match one_based(line, column) {
                None => is_done(r, true, "action="@ + action + " requires `line` and `column` (1-based integers)"@),
                Some((l, c)) => if !supported(caps, a) {
                    is_done(r, false, "the "@ + server + " server does not support "@ + action)
                } else {
                    r matches LspStep::AtPosition { action: a2, position } && a2 == a && (
                    position.line as nat,
                    position.character as nat,
                    ) == lsp_position(content, l as nat, c as nat, encoding)
                },
            },
            None => is_done(
                r,
                true,
                "unknown action `"@ + action + "`; expected diagnostics, definition, references, hover, or symbols"@,
            ),
        }
    }
}

fn is(s: &str, lit: &str) -> (r: bool)
    ensures
        r == (s@ == lit@),
{
    crate::text::str_eq(s, lit)
}

fn cat3(a: &str, b: &str, c: &str) -> (r: String)
    ensures
        r@ == a@ + b@ + c@,
{
    let mut v = to_chars(a);
    extend_str(&mut v, b);
    extend_str(&mut v, c);
    from_chars(v.as_slice())
}

fn done(is_error: bool, text: String) -> (r: LspStep)
    ensures
        is_done(r, is_error, text@),
{
    LspStep::Done(ToolOutput { content: text, is_error })
}

/// The step an action takes (see `step_spec`); `server` is the server's
/// name, `content` the file as read.
pub fn plan_action(args: &LspArgs, caps: &ServerCaps, server: &str, content: &str, encoding: Encoding) -> (r: LspStep)
    ensures
        step_spec(args.action@, args.line, args.column, *caps, server@, content@, encoding, r),
{
    let a = args.action.as_str();
    if is(a, "diagnostics") {
        return LspStep::Diagnostics;
    }
    if is(a, "symbols") {
        if caps.symbols {
            return LspStep::Symbols;
        }
        let t = cat3("the ", server, " server does not support symbols");
        return done(false, t);
    }
    let pa = if is(a, "definition") {
        Some(PositionAction::Definition)
    } else if is(a, "references") {
        Some(PositionAction::References)
    } else if is(a, "hover") {
        Some(PositionAction::Hover)
    } else {
        None
    };
    match pa {
        None => {
            let t = cat3(
                "unknown action `",
                a,
                "`; expected diagnostics, definition, references, hover, or symbols",
            );
            done(true, t)
        },
        Some(act) => {
            let lc = match (args.line, args.column) {
                (Some(l), Some(c)) => if l >= 1 && c >= 1 {
                    Some((l, c))
                } else {
                    None
                },
                _ => None,
            };
            match lc {
                None => {
                    let t = cat3("action=", a, " requires `line` and `column` (1-based integers)");
                    done(true, t)
                },
                Some((l, c)) => {
                    let ok = match act {
                        PositionAction::Definition => caps.definition,
                        PositionAction::References => caps.references,
                        PositionAction::Hover => caps.hover,
                    };
                    if !ok {
                        let t = cat3("the ", server, " server does not support ");
                        let mut v = to_chars(t.as_str());
                        extend_str(&mut v, a);
                        done(false, from_chars(v.as_slice()))
                    } else {
                        let position = to_lsp_position(content, l, c, encoding);
                        LspStep::AtPosition { action: act, position }
                    }
                },
            }
        },
    }
}

// ---------------------------------------------------------------------------
// Locations
// ---------------------------------------------------------------------------

/// `path:line:col` for a server location, 1-based, the column converted
/// back to UTF-8 bytes when the target line's text is at hand (else the
/// raw offset plus one); a URI that is no file path is shown as it is.
pub open spec fn location_spec(
    uri: Seq<char>,
    line: u32,
    character: u32,
    line_text: Option<Seq<char>>,
    encoding: Encoding,
) -> Seq<char> {
    match uri_path(encode_utf8(uri)) {
        Some(p) => p + ":"@ + decimal(line as nat + 1) + ":"@ + decimal(
            match line_text {
                Some(t) => byte_column(t, character as nat, encoding),
                None => character as nat + 1,
            },
        ),
        None => uri + ":"@ + decimal(line as nat + 1) + ":"@ + decimal(character as nat + 1),
    }
}

/// See `location_spec`; `line_text` is the target file's line at `line`,
/// when the file could be read and has it.
pub fn location_text(uri: &str, line: u32, character: u32, line_text: Option<&str>, encoding: Encoding) -> (r: String)
    requires
        match line_text {
            Some(t) => byte_len(t@) < u32::MAX,
            None => true,
        },
    ensures
        r@ == location_spec(
            uri@,
            line,
            character,
            match line_text {
                Some(t) => Some(t@),
                None => None,
            },
            encoding,
        ),
{
    match uri_to_path(uri) {
        Some(p) => {
            let col: u64 = match line_text {
                Some(t) => from_lsp_character(t, character, encoding) as u64,
                None => character as u64 + 1,
            };
            let mut v = to_chars(p.as_str());
            v.push(':');
            push_decimal(&mut v, line as u64 + 1);
            v.push(':');
            push_decimal(&mut v, col);
            assert(v@ =~= p@ + ":"@ + decimal(line as nat + 1) + ":"@ + decimal(col as nat)) by {
                reveal_strlit(":");
            }
            from_chars(v.as_slice())
        },
        None => {
            let mut v = to_chars(uri);
            v.push(':');
            push_decimal(&mut v, line as u64 + 1);
            v.push(':');
            push_decimal(&mut v, character as u64 + 1);
            assert(v@ =~= uri@ + ":"@ + decimal(line as nat + 1) + ":"@ + decimal(character as nat + 1)) by {
                reveal_strlit(":");
            }
            from_chars(v.as_slice())
        },
    }
}

/// The shown lines, then how many more there were.
pub open spec fn capped_list(shown: Seq<Seq<char>>, total: nat, cap: nat) -> Seq<char> {
    join(shown, "\n"@) + if total > cap {
        "\n… and "@ + decimal((total - cap) as nat) + " more"@
    } else {
        Seq::empty()
    }
}

pub open spec fn shown_count(total: nat, cap: nat) -> nat {
    if total < cap {
        total
    } else {
        cap
    }
}

fn capped_exec(shown: &Vec<String>, total: usize, cap: usize) -> (r: Vec<char>)
    ensures
        r@ == capped_list(str_views(shown@), total as nat, cap as nat),
{
    let mut ps: Vec<Vec<char>> = Vec::new();
    let mut i: usize = 0;
    while i < shown.len()
        invariant
            i <= shown@.len(),
            views(ps@) =~= str_views(shown@).take(i as int),
        decreases shown@.len() - i,
    {
        let ghost before = views(ps@);
        ps.push(to_chars(shown[i].as_str()));
        assert(views(ps@) =~= before.push(shown@[i as int]@));
        assert(str_views(shown@).take(i + 1) =~= str_views(shown@).take(i as int).push(shown@[i as int]@));
        i = i + 1;
    }
    assert(str_views(shown@).take(shown@.len() as int) =~= str_views(shown@));
    let nl = vec!['\n'];
    assert(nl@ =~= "\n"@) by {
        reveal_strlit("\n");
    }
    let mut v = join_exec(ps.as_slice(), nl.as_slice());
    if total > cap {
        extend_str(&mut v, "\n… and ");
        push_decimal(&mut v, (total - cap) as u64);
        extend_str(&mut v, " more");
    }
    v
}

pub open spec fn str_views(v: Seq<String>) -> Seq<Seq<char>> {
    v.map_values(|s: String| s@)
}

/// The definitions found: none is said so; else the first ten locations
/// (`shown`, already rendered) and how many more there were.
pub fn definition_report(total: usize, shown: &Vec<String>) -> (r: ToolOutput)
    requires
        shown@.len() == shown_count(total as nat, DEFINITION_CAP as nat),
    ensures
        !r.is_error,
        r.content@ == if total == 0 {
            "no definition found at this position"@
        } else {
            capped_list(str_views(shown@), total as nat, DEFINITION_CAP as nat)
        },
{
    if total == 0 {
        return ToolOutput::ok("no definition found at this position");
    }
    let v = capped_exec(shown, total, DEFINITION_CAP);
    ToolOutput { content: from_chars(v.as_slice()), is_error: false }
}

/// The references found: none is said so; else their count, the first
/// twenty locations (`shown`, already rendered) and how many more there
/// were.
pub fn references_report(total: usize, shown: &Vec<String>) -> (r: ToolOutput)
    requires
        shown@.len() == shown_count(total as nat, REFERENCES_CAP as nat),
    ensures
        !r.is_error,
        r.content@ == if total == 0 {
            "no references found"@
        } else {
            decimal(total as nat) + " reference(s):\n"@ + capped_list(
                str_views(shown@),
                total as nat,
                REFERENCES_CAP as nat,
            )
        },
{
    if total == 0 {
        return ToolOutput::ok("no references found");
    }
    let mut v: Vec<char> = Vec::new();
    push_decimal(&mut v, total as u64);
    extend_str(&mut v, " reference(s):\n");
    let rest = capped_exec(shown, total, REFERENCES_CAP);
    extend(&mut v, rest.as_slice());
    ToolOutput { content: from_chars(v.as_slice()), is_error: false }
}

/// The hover text: its pieces joined by blank lines; nothing (or only
/// space) is said so; long text is capped at 80 lines and 8000 bytes.
pub open spec fn hover_spec(parts: Seq<Seq<char>>) -> Seq<char> {
    let text = join(parts, "\n\n"@);
    if trim(text).len() == 0 {
        "no hover information at this position"@
    } else {
        truncated(text, 80, 8000)
    }
}

/// See `hover_spec`; `parts` are the hover's marked strings or its markup
/// (none when the server had nothing).
pub fn hover_report(parts: &Vec<String>) -> (r: ToolOutput)
    ensures
        !r.is_error,
        r.content@ == hover_spec(str_views(parts@)),
{
    let mut ps: Vec<Vec<char>> = Vec::new();
    let mut i: usize = 0;
    while i < parts.len()
        invariant
            i <= parts@.len(),
            views(ps@) =~= str_views(parts@).take(i as int),
        decreases parts@.len() - i,
    {
        let ghost before = views(ps@);
        ps.push(to_chars(parts[i].as_str()));
        assert(views(ps@) =~= before.push(parts@[i as int]@));
        assert(str_views(parts@).take(i + 1) =~= str_views(parts@).take(i as int).push(parts@[i as int]@));
        i = i + 1;
    }
    assert(str_views(parts@).take(parts@.len() as int) =~= str_views(parts@));
    let sep = to_chars("\n\n");
    let text = join_exec(ps.as_slice(), sep.as_slice());
    if trim_exec(text.as_slice()).len() == 0 {
        return ToolOutput::ok("no hover information at this position");
    }
    let s = from_chars(text.as_slice());
    ToolOutput { content: truncate_output(s.as_str(), 80, 8000), is_error: false }
}

// ---------------------------------------------------------------------------
// Symbols
// ---------------------------------------------------------------------------

/// A document symbol: its name, its kind's name, its 0-based line and the
/// symbols nested in it (a flat list has none).
pub struct DocSymbol {
    pub name: String,
    pub kind: String,
    pub line: u32,
    pub children: Vec<DocSymbol>,
}

/// `<indent><line>: <kind> <name>`.
pub open spec fn symbol_line(indent: Seq<char>, s: DocSymbol) -> Seq<char> {
    indent + decimal(s.line as nat + 1) + ": "@ + s.kind@ + " "@ + s.name@
}

/// The symbols depth first, each with its name and its line, nested ones
/// indented two more spaces.
pub open spec fn flat_symbols(ss: Seq<DocSymbol>, indent: Seq<char>) -> Seq<(Seq<char>, Seq<char>)>
    decreases ss,
{
    if ss.len() == 0 {
        Seq::empty()
    } else {
        flat_symbols(ss.subrange(0, ss.len() - 1), indent) + flat_symbol(ss[ss.len() - 1], indent)
    }
}

pub open spec fn flat_symbol(s: DocSymbol, indent: Seq<char>) -> Seq<(Seq<char>, Seq<char>)>
    decreases s,
{
    seq![(s.name@, symbol_line(indent, s))] + flat_symbols(s.children@, indent + "  "@)
}

pub open spec fn pair_views(v: Seq<(String, String)>) -> Seq<(Seq<char>, Seq<char>)> {
    v.map_values(|p: (String, String)| (p.0@, p.1@))
}

fn flatten_into(ss: &Vec<DocSymbol>, indent: &Vec<char>, out: &mut Vec<(String, String)>)
    ensures
        pair_views(final(out)@) == pair_views(old(out)@) + flat_symbols(ss@, indent@),
    decreases ss@,
{
    let ghost start = pair_views(out@);
    let mut i: usize = 0;
    while i < ss.len()
        invariant
            i <= ss@.len(),
            pair_views(out@) == start + flat_symbols(ss@.take(i as int), indent@),
        decreases ss@.len() - i,
    {
        let s = &ss[i];
        proof {
            let t = ss@.take(i + 1);
            assert(t.subrange(0, t.len() - 1) =~= ss@.take(i as int));
            assert(t[t.len() - 1] == ss@[i as int]);
        }
        let mut line: Vec<char> = Vec::new();
        extend(&mut line, indent.as_slice());
        push_decimal(&mut line, s.line as u64 + 1);
        extend_str(&mut line, ": ");
        extend_str(&mut line, s.kind.as_str());
        extend_str(&mut line, " ");
        extend_str(&mut line, s.name.as_str());
        let ghost before = pair_views(out@);
        out.push((s.name.clone(), from_chars(line.as_slice())));
        assert(pair_views(out@) =~= before + seq![(s.name@, symbol_line(indent@, *s))]);
        let mut inner = indent.clone();
        inner.push(' ');
        inner.push(' ');
        assert(inner@ =~= indent@ + "  "@) by {
            reveal_strlit("  ");
        }
        assert(decreases_to!(ss@ => ss@[i as int]));
        assert(decreases_to!(ss@[i as int] => ss@[i as int].children));
        assert(decreases_to!(ss@[i as int].children => ss@[i as int].children@));
        flatten_into(&s.children, &inner, out);
        proof {
            assert(seq![(s.name@, symbol_line(indent@, *s))] + flat_symbols(s.children@, indent@ + "  "@)
                == flat_symbol(*s, indent@));
        }
        i = i + 1;
    }
    assert(ss@.take(ss@.len() as int) =~= ss@);
}

/// The lower-case form of `s`.
pub uninterp spec fn lowercase_of(s: Seq<char>) -> Seq<char>;

/// `str::to_lowercase`: the lower-case equivalent of `s` by Unicode's
/// mapping. Depends on `s` alone.
#[verifier::external_body]
fn to_lowercase(s: &str) -> (r: String)
    ensures
        r@ == lowercase_of(s@),
{
    s.to_lowercase()
}

/// The lines of the symbols whose lower-cased name contains `needle`.
pub open spec fn matching(es: Seq<(Seq<char>, Seq<char>)>, needle: Seq<char>) -> Seq<Seq<char>>
    decreases es.len(),
{
    if es.len() == 0 {
        Seq::empty()
    } else {
        let rest = matching(es.drop_last(), needle);
        if contains(lowercase_of(es.last().0), needle) {
            rest.push(es.last().1)
        } else {
            rest
        }
    }
}

/// The symbol list: every symbol's line, or with a query only those whose
/// name contains it (case ignored); none left is said so; long lists are
/// capped at 100 lines and 10000 bytes.
pub open spec fn symbols_spec(ss: Seq<DocSymbol>, query: Option<Seq<char>>) -> Seq<char> {
    let es = flat_symbols(ss, Seq::empty());
    let kept = match query {
        Some(q) => matching(es, lowercase_of(q)),
        None => es.map_values(|e: (Seq<char>, Seq<char>)| e.1),
    };
    if kept.len() == 0 {
        match query {
            Some(q) => "no symbols matching `"@ + q + "`"@,
            None => "no symbols in this file"@,
        }
    } else {
        truncated(join(kept, "\n"@), 100, 10000)
    }
}

/// See `symbols_spec`.
pub fn symbols_report(symbols: &Vec<DocSymbol>, query: Option<&str>) -> (r: ToolOutput)
    ensures
        !r.is_error,
        r.content@ == symbols_spec(
            symbols@,
            match query {
                Some(q) => Some(q@),
                None => None,
            },
        ),
{
    let mut entries: Vec<(String, String)> = Vec::new();
    let empty: Vec<char> = Vec::new();
    flatten_into(symbols, &empty, &mut entries);
    assert(pair_views(entries@) =~= flat_symbols(symbols@, Seq::empty()));
    let ghost es = pair_views(entries@);
    let mut kept: Vec<Vec<char>> = Vec::new();
    match query {
        Some(q) => {
            let needle_s = to_lowercase(q);
            let needle = to_chars(needle_s.as_str());
            let mut i: usize = 0;
            while i < entries.len()
                invariant
                    i <= entries@.len(),
                    es == pair_views(entries@),
                    needle@ == lowercase_of(q@),
                    views(kept@) == matching(es.take(i as int), needle@),
                decreases entries@.len() - i,
            {
                assert(es.take(i + 1).drop_last() =~= es.take(i as int));
                let name = to_lowercase(entries[i].0.as_str());
                let lc = to_chars(name.as_str());
                if contains_exec(lc.as_slice(), needle.as_slice()) {
                    let ghost before = views(kept@);
                    kept.push(to_chars(entries[i].1.as_str()));
                    assert(views(kept@) =~= before.push(entries@[i as int].1@));
                }
                i = i + 1;
            }
            assert(es.take(entries@.len() as int) =~= es);
        },
        None => {
            let mut i: usize = 0;
            while i < entries.len()
                invariant
                    i <= entries@.len(),
                    es == pair_views(entries@),
                    views(kept@) =~= es.map_values(|e: (Seq<char>, Seq<char>)| e.1).take(i as int),
                decreases entries@.len() - i,
            {
                let ghost before = views(kept@);
                kept.push(to_chars(entries[i].1.as_str()));
                assert(views(kept@) =~= before.push(es[i as int].1));
                assert(es.map_values(|e: (Seq<char>, Seq<char>)| e.1).take(i + 1) =~= es.map_values(
                    |e: (Seq<char>, Seq<char>)| e.1,
                ).take(i as int).push(es[i as int].1));
                i = i + 1;
            }
            assert(es.map_values(|e: (Seq<char>, Seq<char>)| e.1).take(entries@.len() as int) =~= es.map_values(
                |e: (Seq<char>, Seq<char>)| e.1,
            ));
        },
    }
    if kept.len() == 0 {
        return match query {
            Some(q) => {
                let mut v = to_chars("no symbols matching `");
                extend_str(&mut v, q);
                extend_str(&mut v, "`");
                ToolOutput { content: from_chars(v.as_slice()), is_error: false }
            },
            None => ToolOutput::ok("no symbols in this file"),
        };
    }
    let nl = vec!['\n'];
    assert(nl@ =~= "\n"@) by {
        reveal_strlit("\n");
    }
    let text = join_exec(kept.as_slice(), nl.as_slice());
    let s = from_chars(text.as_slice());
    ToolOutput { content: truncate_output(s.as_str(), 100, 10000), is_error: false }
}

// ---------------------------------------------------------------------------
// Diagnostics
// ---------------------------------------------------------------------------

/// What a diagnostics request reports: the rendered diagnostics once the
/// server has analysed this version; otherwise the latest known ones, if
/// any, marked as such; otherwise that they are pending.
pub open spec fn diagnostics_spec(fresh: Option<Seq<char>>, latest: Option<Seq<char>>) -> Seq<char> {
    match fresh {
        Some(t) => t,
        None => match latest {
            Some(t) => "server is still analyzing; latest known state:\n"@ + t,
            None => "diagnostics pending — the server is still analyzing; re-run action=diagnostics shortly"@,
        },
    }
}

/// See `diagnostics_spec`; `latest` is given only when the store holds a
/// non-empty list for the file.
pub fn diagnostics_report(fresh: Option<String>, latest: Option<String>) -> (r: ToolOutput)
    ensures
        !r.is_error,
        r.content@ == diagnostics_spec(crate::model::opt_view(fresh), crate::model::opt_view(latest)),
{
    match fresh {
        Some(t) => ToolOutput { content: t, is_error: false },
        None => match latest {
            Some(t) => {
                let mut v = to_chars("server is still analyzing; latest known state:\n");
                extend_str(&mut v, t.as_str());
                ToolOutput { content: from_chars(v.as_slice()), is_error: false }
            },
            None => ToolOutput::ok(
                "diagnostics pending — the server is still analyzing; re-run action=diagnostics shortly",
            ),
        },
    }
}

} // verus!
