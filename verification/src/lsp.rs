//! Language-server integration: which servers exist (builtin defaults
//! merged with `[lsp.<name>]` config), which one a file goes to, and the
//! language id a file is opened with.
use vstd::prelude::*;

use crate::config::{keys_of, LspServerConfig};
use crate::permissions::str_views;
use crate::text::{chars_eq, lower, lower_char_exec, rfind, rfind_exec, slice_to_vec, str_eq, to_chars};

verus! {

/// A resolved server definition.
#[derive(Debug)]
pub struct ServerDef {
    pub name: String,
    /// Candidate commands with their arguments, in priority order; the
    /// first found on `PATH` is spawned.
    pub commands: Vec<(String, Vec<String>)>,
    /// File extensions (no dot) routed to this server.
    pub filetypes: Vec<String>,
    /// Files or directories whose presence, walking upward, marks a
    /// workspace root.
    pub root_markers: Vec<String>,
    pub env: Vec<(String, String)>,
}

pub struct ServerView {
    pub name: Seq<char>,
    pub commands: Seq<(Seq<char>, Seq<Seq<char>>)>,
    pub filetypes: Seq<Seq<char>>,
    pub root_markers: Seq<Seq<char>>,
    pub env: Seq<(Seq<char>, Seq<char>)>,
}

pub open spec fn command_views(c: Seq<(String, Vec<String>)>) -> Seq<(Seq<char>, Seq<Seq<char>>)> {
    c.map_values(|p: (String, Vec<String>)| (p.0@, str_views(p.1@)))
}

pub open spec fn pair_views(c: Seq<(String, String)>) -> Seq<(Seq<char>, Seq<char>)> {
    c.map_values(|p: (String, String)| (p.0@, p.1@))
}

impl View for ServerDef {
    type V = ServerView;

    open spec fn view(&self) -> ServerView {
        ServerView {
            name: self.name@,
            commands: command_views(self.commands@),
            filetypes: str_views(self.filetypes@),
            root_markers: str_views(self.root_markers@),
            env: pair_views(self.env@),
        }
    }
}

pub open spec fn server_views(s: Seq<ServerDef>) -> Seq<ServerView> {
    s.map_values(|d: ServerDef| d@)
}

/// A `[lsp.<name>]` section as plain values.
pub struct LspView {
    pub command: Option<Seq<char>>,
    pub args: Seq<Seq<char>>,
    pub filetypes: Seq<Seq<char>>,
    pub root_markers: Seq<Seq<char>>,
    pub env: Seq<(Seq<char>, Seq<char>)>,
    pub disabled: bool,
}

pub open spec fn lsp_view(c: LspServerConfig) -> LspView {
    LspView {
        command: crate::model::opt_view(c.command),
        args: str_views(c.args@),
        filetypes: str_views(c.filetypes@),
        root_markers: str_views(c.root_markers@),
        env: pair_views(c.env@),
        disabled: c.disabled,
    }
}

pub open spec fn builtin_def(name: Seq<char>, commands: Seq<(Seq<char>, Seq<Seq<char>>)>, filetypes: Seq<Seq<char>>, root_markers: Seq<Seq<char>>) -> ServerView {
    ServerView { name, commands, filetypes, root_markers, env: Seq::empty() }
}

/// The builtin servers: rust-analyzer, typescript-language-server,
/// basedpyright (falling back to pyright) and gopls.
pub open spec fn builtin_defs() -> Seq<ServerView> {
    seq![
        builtin_def("rust"@, seq![("rust-analyzer"@, Seq::empty())], seq!["rs"@], seq!["Cargo.toml"@]),
        builtin_def(
            "typescript"@,
            seq![("typescript-language-server"@, seq!["--stdio"@])],
            seq!["ts"@, "tsx"@, "js"@, "jsx"@, "mts"@, "cts"@, "mjs"@, "cjs"@],
            seq!["tsconfig.json"@, "package.json"@],
        ),
        builtin_def(
            "python"@,
            seq![("basedpyright-langserver"@, seq!["--stdio"@]), ("pyright-langserver"@, seq!["--stdio"@])],
            seq!["py"@, "pyi"@],
            seq!["pyproject.toml"@, "setup.py"@, "setup.cfg"@, "requirements.txt"@],
        ),
        builtin_def("go"@, seq![("gopls"@, Seq::empty())], seq!["go"@], seq!["go.mod"@, "go.work"@]),
    ]
}

fn strs(v: &[&str]) -> (r: Vec<String>)
    ensures
        str_views(r@) == v@.map_values(|s: &str| s@),
{
    let mut r: Vec<String> = Vec::new();
    let mut i: usize = 0;
    while i < v.len()
        invariant
            i <= v@.len(),
            str_views(r@) == v@.map_values(|s: &str| s@).take(i as int),
        decreases v@.len() - i,
    {
        let ghost before = str_views(r@);
        r.push(crate::text::own(v[i]));
        assert(str_views(r@) =~= before.push(v@[i as int]@));
        assert(v@.map_values(|s: &str| s@).take(i + 1) =~= v@.map_values(|s: &str| s@).take(i as int).push(v@[i as int]@));
        i = i + 1;
    }
    assert(v@.map_values(|s: &str| s@).take(v@.len() as int) =~= v@.map_values(|s: &str| s@));
    r
}

fn copy_strs(v: &Vec<String>) -> (r: Vec<String>)
    ensures
        str_views(r@) == str_views(v@),
{
    let mut r: Vec<String> = Vec::new();
    let mut i: usize = 0;
    while i < v.len()
        invariant
            i <= v@.len(),
            str_views(r@) == str_views(v@).take(i as int),
        decreases v@.len() - i,
    {
        let ghost before = str_views(r@);
        r.push(crate::text::own(v[i].as_str()));
        assert(str_views(r@) =~= before.push(v@[i as int]@));
        assert(str_views(v@).take(i + 1) =~= str_views(v@).take(i as int).push(v@[i as int]@));
        i = i + 1;
    }
    assert(str_views(v@).take(v@.len() as int) =~= str_views(v@));
    r
}

fn copy_pairs(v: &Vec<(String, String)>) -> (r: Vec<(String, String)>)
    ensures
        pair_views(r@) == pair_views(v@),
{
    let mut r: Vec<(String, String)> = Vec::new();
    let mut i: usize = 0;
    while i < v.len()
        invariant
            i <= v@.len(),
            pair_views(r@) == pair_views(v@).take(i as int),
        decreases v@.len() - i,
    {
        let ghost before = pair_views(r@);
        r.push((crate::text::own(v[i].0.as_str()), crate::text::own(v[i].1.as_str())));
        assert(pair_views(r@) =~= before.push((v@[i as int].0@, v@[i as int].1@)));
        assert(pair_views(v@).take(i + 1) =~= pair_views(v@).take(i as int).push((v@[i as int].0@, v@[i as int].1@)));
        i = i + 1;
    }
    assert(pair_views(v@).take(v@.len() as int) =~= pair_views(v@));
    r
}

fn def(name: &str, commands: Vec<(String, Vec<String>)>, filetypes: &[&str], root_markers: &[&str]) -> (d: ServerDef)
    ensures
        d@ == builtin_def(
            name@,
            command_views(commands@),
            filetypes@.map_values(|s: &str| s@),
            root_markers@.map_values(|s: &str| s@),
        ),
{
    let d = ServerDef {
        name: crate::text::own(name),
        commands,
        filetypes: strs(filetypes),
        root_markers: strs(root_markers),
        env: Vec::new(),
    };
    assert(pair_views(d.env@) =~= Seq::<(Seq<char>, Seq<char>)>::empty());
    d
}

fn command(c: &str, args: &[&str]) -> (r: (String, Vec<String>))
    ensures
        r.0@ == c@,
        str_views(r.1@) == args@.map_values(|s: &str| s@),
{
    (crate::text::own(c), strs(args))
}

/// The builtin servers (see `builtin_defs`).
pub fn builtin_servers() -> (r: Vec<ServerDef>)
    ensures
        server_views(r@) == builtin_defs(),
{
    let none: [&str; 0] = [];
    let stdio = ["--stdio"];
    assert(none@.map_values(|s: &str| s@) =~= Seq::<Seq<char>>::empty());
    assert(stdio@.map_values(|s: &str| s@) =~= seq!["--stdio"@]);
    let rust_cmds = vec![command("rust-analyzer", &none)];
    assert(command_views(rust_cmds@) =~= seq![("rust-analyzer"@, Seq::<Seq<char>>::empty())]);
    let ts_cmds = vec![command("typescript-language-server", &stdio)];
    assert(command_views(ts_cmds@) =~= seq![("typescript-language-server"@, seq!["--stdio"@])]);
    let py_cmds = vec![command("basedpyright-langserver", &stdio), command("pyright-langserver", &stdio)];
    assert(command_views(py_cmds@) =~= seq![("basedpyright-langserver"@, seq!["--stdio"@]), ("pyright-langserver"@, seq!["--stdio"@])]);
    let go_cmds = vec![command("gopls", &none)];
    assert(command_views(go_cmds@) =~= seq![("gopls"@, Seq::<Seq<char>>::empty())]);
    let rs_ft = ["rs"];
    let rs_rm = ["Cargo.toml"];
    let ts_ft = ["ts", "tsx", "js", "jsx", "mts", "cts", "mjs", "cjs"];
    let ts_rm = ["tsconfig.json", "package.json"];
    let py_ft = ["py", "pyi"];
    let py_rm = ["pyproject.toml", "setup.py", "setup.cfg", "requirements.txt"];
    let go_ft = ["go"];
    let go_rm = ["go.mod", "go.work"];
    assert(rs_ft@.map_values(|s: &str| s@) =~= seq!["rs"@]);
    assert(rs_rm@.map_values(|s: &str| s@) =~= seq!["Cargo.toml"@]);
    assert(ts_ft@.map_values(|s: &str| s@) =~= seq!["ts"@, "tsx"@, "js"@, "jsx"@, "mts"@, "cts"@, "mjs"@, "cjs"@]);
    assert(ts_rm@.map_values(|s: &str| s@) =~= seq!["tsconfig.json"@, "package.json"@]);
    assert(py_ft@.map_values(|s: &str| s@) =~= seq!["py"@, "pyi"@]);
    assert(py_rm@.map_values(|s: &str| s@) =~= seq!["pyproject.toml"@, "setup.py"@, "setup.cfg"@, "requirements.txt"@]);
    assert(go_ft@.map_values(|s: &str| s@) =~= seq!["go"@]);
    assert(go_rm@.map_values(|s: &str| s@) =~= seq!["go.mod"@, "go.work"@]);
    let r = vec![
        def("rust", rust_cmds, &rs_ft, &rs_rm),
        def("typescript", ts_cmds, &ts_ft, &ts_rm),
        def("python", py_cmds, &py_ft, &py_rm),
        def("go", go_cmds, &go_ft, &go_rm),
    ];
    assert(server_views(r@) =~= builtin_defs());
    r
}

// ---------------------------------------------------------------------------
// Merging the config over the builtins
// ---------------------------------------------------------------------------

pub open spec fn lsp_entries(cfg: Seq<(String, LspServerConfig)>) -> Seq<(Seq<char>, LspView)> {
    cfg.map_values(|p: (String, LspServerConfig)| (p.0@, lsp_view(p.1)))
}

/// The first config section named `name`.
pub open spec fn section_for(cfg: Seq<(Seq<char>, LspView)>, name: Seq<char>) -> Option<LspView>
    decreases cfg.len(),
{
    if cfg.len() == 0 {
        None
    } else if cfg[0].0 == name {
        Some(cfg[0].1)
    } else {
        section_for(cfg.drop_first(), name)
    }
}

/// A builtin with a section over it: a `command` replaces the commands
/// (with the section's arguments), non-empty lists replace the builtin's,
/// and the section's environment is used (builtins set none).
pub open spec fn merged(b: ServerView, u: LspView) -> ServerView {
    ServerView {
        name: b.name,
        commands: match u.command {
            Some(c) => seq![(c, u.args)],
            None => b.commands,
        },
        filetypes: if u.filetypes.len() > 0 {
            u.filetypes
        } else {
            b.filetypes
        },
        root_markers: if u.root_markers.len() > 0 {
            u.root_markers
        } else {
            b.root_markers
        },
        env: u.env,
    }
}

/// The builtins after the config: kept as is without a section, dropped
/// when disabled, merged otherwise.
pub open spec fn builtins_after(cfg: Seq<(Seq<char>, LspView)>, bs: Seq<ServerView>) -> Seq<ServerView>
    decreases bs.len(),
{
    if bs.len() == 0 {
        Seq::empty()
    } else {
        let rest = builtins_after(cfg, bs.drop_last());
        let b = bs.last();
        match section_for(cfg, b.name) {
            None => rest.push(b),
            Some(u) => if u.disabled {
                rest
            } else {
                rest.push(merged(b, u))
            },
        }
    }
}

/// The servers that sections define beyond the builtins, in section
/// order: each needs a command and filetypes; root markers default to `.git`.
pub open spec fn custom_servers(cfg: Seq<(Seq<char>, LspView)>, builtin_names: Seq<Seq<char>>) -> Seq<ServerView>
    decreases cfg.len(),
{
    if cfg.len() == 0 {
        Seq::empty()
    } else {
        let rest = custom_servers(cfg.drop_last(), builtin_names);
        let (name, u) = cfg.last();
        if u.disabled || builtin_names.contains(name) || u.command is None || u.filetypes.len() == 0 {
            rest
        } else {
            rest.push(
                ServerView {
                    name,
                    commands: seq![(u.command->0, u.args)],
                    filetypes: u.filetypes,
                    root_markers: if u.root_markers.len() == 0 {
                        seq![".git"@]
                    } else {
                        u.root_markers
                    },
                    env: u.env,
                },
            )
        }
    }
}

pub open spec fn builtin_names() -> Seq<Seq<char>> {
    seq!["rust"@, "typescript"@, "python"@, "go"@]
}

/// The servers of a session: the builtins after the config, then the
/// servers the config adds.
pub open spec fn resolved(cfg: Seq<(Seq<char>, LspView)>) -> Seq<ServerView> {
    builtins_after(cfg, builtin_defs()) + custom_servers(cfg, builtin_names())
}

fn section_index(cfg: &Vec<(String, LspServerConfig)>, name: &str) -> (r: Option<usize>)
    ensures
        match r {
            Some(i) => i < cfg@.len() && section_for(lsp_entries(cfg@), name@) == Some(lsp_view(cfg@[i as int].1)),
            None => section_for(lsp_entries(cfg@), name@) is None,
        },
{
    let ghost ev = lsp_entries(cfg@);
    let nc = to_chars(name);
    let mut i: usize = 0;
    assert(ev.skip(0) =~= ev);
    while i < cfg.len()
        invariant
            i <= cfg@.len(),
            ev == lsp_entries(cfg@),
            nc@ == name@,
            section_for(ev, name@) == section_for(ev.skip(i as int), name@),
        decreases cfg@.len() - i,
    {
        assert(ev.skip(i as int)[0] == (cfg@[i as int].0@, lsp_view(cfg@[i as int].1)));
        let c = to_chars(cfg[i].0.as_str());
        if chars_eq(c.as_slice(), nc.as_slice()) {
            return Some(i);
        }
        assert(ev.skip(i as int).drop_first() =~= ev.skip(i + 1));
        i = i + 1;
    }
    None
}

fn copy_commands(v: &Vec<(String, Vec<String>)>) -> (r: Vec<(String, Vec<String>)>)
    ensures
        command_views(r@) == command_views(v@),
{
    let mut r: Vec<(String, Vec<String>)> = Vec::new();
    let mut i: usize = 0;
    while i < v.len()
        invariant
            i <= v@.len(),
            command_views(r@) == command_views(v@).take(i as int),
        decreases v@.len() - i,
    {
        let ghost before = command_views(r@);
        r.push((crate::text::own(v[i].0.as_str()), copy_strs(&v[i].1)));
        assert(command_views(r@) =~= before.push((v@[i as int].0@, str_views(v@[i as int].1@))));
        assert(command_views(v@).take(i + 1) =~= command_views(v@).take(i as int).push((v@[i as int].0@, str_views(v@[i as int].1@))));
        i = i + 1;
    }
    assert(command_views(v@).take(v@.len() as int) =~= command_views(v@));
    r
}

fn merge_exec(b: ServerDef, u: &LspServerConfig) -> (r: ServerDef)
    ensures
        r@ == merged(b@, lsp_view(*u)),
{
    let commands = match &u.command {
        Some(c) => {
            let v = vec![(crate::text::own(c.as_str()), copy_strs(&u.args))];
            assert(command_views(v@) =~= seq![(c@, str_views(u.args@))]);
            v
        },
        None => b.commands,
    };
    let filetypes = if u.filetypes.len() > 0 {
        copy_strs(&u.filetypes)
    } else {
        b.filetypes
    };
    let root_markers = if u.root_markers.len() > 0 {
        copy_strs(&u.root_markers)
    } else {
        b.root_markers
    };
    ServerDef { name: b.name, commands, filetypes, root_markers, env: copy_pairs(&u.env) }
}

/// Merge the `[lsp.<name>]` sections over the builtins (see `resolved`).
pub fn resolve_servers(config: &Vec<(String, LspServerConfig)>) -> (r: Vec<ServerDef>)
    ensures
        server_views(r@) == resolved(lsp_entries(config@)),
{
    let ghost ev = lsp_entries(config@);
    let mut builtins = builtin_servers();
    let ghost bv = server_views(builtins@);
    let mut out: Vec<ServerDef> = Vec::new();
    let n = builtins.len();
    let mut i: usize = 0;
    while i < n
        invariant
            i <= n,
            n == bv.len(),
            bv == builtin_defs(),
            server_views(builtins@) == bv.skip(i as int),
            ev == lsp_entries(config@),
            server_views(out@) == builtins_after(ev, bv.take(i as int)),
        decreases n - i,
    {
        assert(server_views(builtins@).len() == builtins@.len());
        let ghost rv = server_views(builtins@);
        let b = builtins.remove(0);
        assert(server_views(builtins@) =~= rv.drop_first());
        assert(rv.drop_first() =~= bv.skip(i + 1));
        assert(rv[0] == b@);
        assert(bv.skip(i as int)[0] == bv[i as int]);
        assert(b@ == bv[i as int]);
        assert(bv.take(i + 1).drop_last() =~= bv.take(i as int));
        assert(bv.take(i + 1).last() == bv[i as int]);
        let ghost before = server_views(out@);
        match section_index(config, b.name.as_str()) {
            None => {
                out.push(b);
                assert(server_views(out@) =~= before.push(bv[i as int]));
            },
            Some(k) => {
                if !config[k].1.disabled {
                    let m = merge_exec(b, &config[k].1);
                    out.push(m);
                    assert(server_views(out@) =~= before.push(merged(bv[i as int], lsp_view(config@[k as int].1))));
                }
            },
        }
        i = i + 1;
    }
    assert(bv.take(n as int) =~= bv);
    let ghost first = server_views(out@);
    let names = ["rust", "typescript", "python", "go"];
    assert(names@.map_values(|s: &str| s@) =~= builtin_names());
    let mut j: usize = 0;
    while j < config.len()
        invariant
            j <= config@.len(),
            ev == lsp_entries(config@),
            names@.map_values(|s: &str| s@) == builtin_names(),
            server_views(out@) == first + custom_servers(ev.take(j as int), builtin_names()),
        decreases config@.len() - j,
    {
        assert(ev.take(j + 1).drop_last() =~= ev.take(j as int));
        assert(ev.take(j + 1).last() == (config@[j as int].0@, lsp_view(config@[j as int].1)));
        let name = &config[j].0;
        let u = &config[j].1;
        let mut is_builtin = false;
        let mut k: usize = 0;
        while k < 4
            invariant
                k <= 4,
                names@.map_values(|s: &str| s@) == builtin_names(),
                is_builtin == (exists|m: int| 0 <= m < k && builtin_names()[m] == name@),
            decreases 4 - k,
        {
            assert(builtin_names()[k as int] == names@[k as int]@);
            let eq = str_eq(names[k], name.as_str());
            if eq {
                is_builtin = true;
                assert(builtin_names()[k as int] == name@);
            }
            k = k + 1;
        }
        proof {
            if builtin_names().contains(name@) {
                let m = choose|m: int| 0 <= m < 4 && builtin_names()[m] == name@;
                assert(is_builtin);
            }
        }
        let ghost before = server_views(out@);
        let ghost uv = lsp_view(*u);
        assert(uv.filetypes.len() == u.filetypes@.len());
        assert(is_builtin == builtin_names().contains(name@));
        if !(u.disabled || is_builtin || u.command.is_none() || u.filetypes.len() == 0) {
            let root_markers = if u.root_markers.len() == 0 {
                let v = vec![crate::text::own(".git")];
                assert(str_views(v@) =~= seq![".git"@]);
                v
            } else {
                copy_strs(&u.root_markers)
            };
            let cmd = match &u.command {
                Some(c) => crate::text::own(c.as_str()),
                None => String::new(),
            };
            let commands = vec![(cmd, copy_strs(&u.args))];
            let d = ServerDef {
                name: crate::text::own(name.as_str()),
                commands,
                filetypes: copy_strs(&u.filetypes),
                root_markers,
                env: copy_pairs(&u.env),
            };
            assert(command_views(d.commands@) =~= seq![(uv.command->0, uv.args)]);
            assert(d@ == ServerView {
                name: name@,
                commands: seq![(uv.command->0, uv.args)],
                filetypes: uv.filetypes,
                root_markers: if uv.root_markers.len() == 0 {
                    seq![".git"@]
                } else {
                    uv.root_markers
                },
                env: uv.env,
            });
            out.push(d);
            assert(server_views(out@) =~= before.push(d@));
        }
        j = j + 1;
    }
    assert(ev.take(config@.len() as int) =~= ev);
    out
}

// ---------------------------------------------------------------------------
// Files
// ---------------------------------------------------------------------------

/// The extension of a file name: what follows its last `.`, when that
/// `.` is not the first character.
pub open spec fn extension_of(name: Seq<char>) -> Option<Seq<char>> {
    match rfind(name, seq!['.']) {
        Some(i) => if i > 0 {
            Some(name.skip(i + 1))
        } else {
            None
        },
        None => None,
    }
}

/// The lower-cased extension of a path's file name, or empty.
pub open spec fn ext_key(path: Seq<char>) -> Seq<char> {
    match crate::paths::file_name(path) {
        Some(n) => match extension_of(n) {
            Some(e) => lower(e),
            None => Seq::empty(),
        },
        None => Seq::empty(),
    }
}

fn lower_vec(s: &[char]) -> (r: Vec<char>)
    ensures
        r@ == lower(s@),
{
    let mut r: Vec<char> = Vec::new();
    let mut i: usize = 0;
    while i < s.len()
        invariant
            i <= s@.len(),
            r@ == lower(s@.take(i as int)),
        decreases s@.len() - i,
    {
        r.push(lower_char_exec(s[i]));
        assert(lower(s@.take(i + 1)) =~= lower(s@.take(i as int)).push(crate::text::lower_char(s@[i as int])));
        i = i + 1;
    }
    assert(s@.take(s@.len() as int) =~= s@);
    r
}

/// The lower-cased extension of `path`'s file name (see `ext_key`).
pub fn extension_key(path: &str) -> (r: Vec<char>)
    ensures
        r@ == ext_key(path@),
{
    match crate::paths::file_name_exec(path) {
        None => Vec::new(),
        Some(n) => {
            let dot = vec!['.'];
            assert(dot@ =~= seq!['.']);
            match rfind_exec(n.as_slice(), dot.as_slice()) {
                Some(i) => {
                    if i > 0 {
                        let nl = n.len();
                        let e = slice_to_vec(n.as_slice(), i + 1, nl);
                        assert(e@ =~= n@.skip(i + 1));
                        lower_vec(e.as_slice())
                    } else {
                        Vec::new()
                    }
                },
                None => Vec::new(),
            }
        },
    }
}

/// The language id a file is opened with, by extension.
pub open spec fn language_of(ext: Seq<char>) -> Seq<char> {
    if ext == "rs"@ {
        "rust"@
    } else if ext == "ts"@ || ext == "mts"@ || ext == "cts"@ {
        "typescript"@
    } else if ext == "tsx"@ {
        "typescriptreact"@
    } else if ext == "js"@ || ext == "mjs"@ || ext == "cjs"@ {
        "javascript"@
    } else if ext == "jsx"@ {
        "javascriptreact"@
    } else if ext == "py"@ || ext == "pyi"@ {
        "python"@
    } else if ext == "go"@ {
        "go"@
    } else {
        "plaintext"@
    }
}

fn is(e: &Vec<char>, s: &str) -> (r: bool)
    ensures
        r == (e@ == s@),
{
    let c = to_chars(s);
    chars_eq(e.as_slice(), c.as_slice())
}

/// The language id for `path` (see `language_of`).
pub fn language_id(path: &str) -> (r: &'static str)
    ensures
        r@ == language_of(ext_key(path@)),
{
    let e = extension_key(path);
    if is(&e, "rs") {
        "rust"
    } else if is(&e, "ts") || is(&e, "mts") || is(&e, "cts") {
        "typescript"
    } else if is(&e, "tsx") {
        "typescriptreact"
    } else if is(&e, "js") || is(&e, "mjs") || is(&e, "cjs") {
        "javascript"
    } else if is(&e, "jsx") {
        "javascriptreact"
    } else if is(&e, "py") || is(&e, "pyi") {
        "python"
    } else if is(&e, "go") {
        "go"
    } else {
        "plaintext"
    }
}

/// The first server that routes `ext`.
pub open spec fn server_index(servers: Seq<ServerView>, ext: Seq<char>) -> Option<int> {
    if exists|i: int| 0 <= i < servers.len() && #[trigger] servers[i].filetypes.contains(ext) {
        Some(
            choose|i: int|
                0 <= i < servers.len() && servers[i].filetypes.contains(ext) && forall|j: int|
                    0 <= j < i ==> !(#[trigger] servers[j].filetypes.contains(ext)),
        )
    } else {
        None
    }
}

proof fn lemma_first_server(servers: Seq<ServerView>, ext: Seq<char>, w: int)
    requires
        0 <= w < servers.len(),
        servers[w].filetypes.contains(ext),
        forall|j: int| 0 <= j < w ==> !(#[trigger] servers[j].filetypes.contains(ext)),
    ensures
        server_index(servers, ext) == Some(w),
{
    let k = choose|i: int|
        0 <= i < servers.len() && servers[i].filetypes.contains(ext) && forall|j: int|
            0 <= j < i ==> !(#[trigger] servers[j].filetypes.contains(ext));
    assert(servers[w].filetypes.contains(ext));
    if k < w {
        assert(!servers[k].filetypes.contains(ext));
    } else if k > w {
        assert(!servers[w].filetypes.contains(ext));
    }
}

/// The server that handles `path`: the first whose filetypes hold the
/// file's lower-cased extension.
pub fn server_for(servers: &Vec<ServerDef>, path: &str) -> (r: Option<usize>)
    ensures
        match r {
            Some(i) => server_index(server_views(servers@), ext_key(path@)) == Some(i as int),
            None => server_index(server_views(servers@), ext_key(path@)) is None,
        },
{
    let ghost sv = server_views(servers@);
    let e = extension_key(path);
    let mut i: usize = 0;
    while i < servers.len()
        invariant
            i <= servers@.len(),
            sv == server_views(servers@),
            e@ == ext_key(path@),
            forall|j: int| 0 <= j < i ==> !(#[trigger] sv[j].filetypes.contains(e@)),
        decreases servers@.len() - i,
    {
        let ft = &servers[i].filetypes;
        let mut k: usize = 0;
        let mut hit = false;
        while k < ft.len() && !hit
            invariant
                k <= ft@.len(),
                hit == (exists|m: int| 0 <= m < k && str_views(ft@)[m] == e@),
            decreases ft@.len() - k,
        {
            let c = to_chars(ft[k].as_str());
            if chars_eq(c.as_slice(), e.as_slice()) {
                hit = true;
            }
            assert(str_views(ft@)[k as int] == ft@[k as int]@);
            k = k + 1;
        }
        assert(sv[i as int].filetypes == str_views(ft@));
        proof {
            if sv[i as int].filetypes.contains(e@) {
                let m = choose|m: int| 0 <= m < str_views(ft@).len() && str_views(ft@)[m] == e@;
                assert(hit || m >= k);
            }
        }
        if hit {
            proof {
                lemma_first_server(sv, e@, i as int);
            }
            return Some(i);
        }
        i = i + 1;
    }
    None
}

} // verus!
