//! Tool-call repair: local models drift from the native tool-call format
//! and write calls as prose or markdown JSON. This recovers such calls:
//! fenced code blocks and bare brace-balanced objects are candidates, each
//! is parsed leniently (trailing commas and smart quotes forgiven), and
//! objects shaped like a call to a known tool become calls.
use vstd::prelude::*;

use crate::json::{
    canonical_json, json_as_str, json_canon, json_get, json_items, json_items_of, json_kind,
    json_kind_of, json_member, json_string_of, JsonKind,
};
use crate::model::{ToolCall, ToolCallView};
use crate::permissions::str_views;
use crate::text::{
    chars_eq, eq_ignore_case, extend, find, find_exec, from_chars, is_ws, is_ws_exec, lower,
    lower_char_exec, slice_to_vec, to_chars, trim, trim_exec,
};

verus! {

pub const FENCE: &'static str = "```";

// ---------------------------------------------------------------------------
// Candidates
// ---------------------------------------------------------------------------

/// Where the object opened at the scan's start closes: scanning from `j`
/// with `depth` open braces, inside a string or not, right after a
/// backslash or not. Braces inside strings do not count.
pub open spec fn obj_end(s: Seq<char>, j: int, depth: nat, in_str: bool, esc: bool) -> Option<int>
    decreases s.len() - j,
{
    if j < 0 || j >= s.len() {
        None
    } else {
        let c = s[j];
        if esc {
            obj_end(s, j + 1, depth, in_str, false)
        } else if c == '\\' && in_str {
            obj_end(s, j + 1, depth, in_str, true)
        } else if c == '"' {
            obj_end(s, j + 1, depth, !in_str, false)
        } else if c == '{' && !in_str {
            obj_end(s, j + 1, depth + 1, in_str, false)
        } else if c == '}' && !in_str {
            if depth <= 1 {
                Some(j)
            } else {
                obj_end(s, j + 1, (depth - 1) as nat, in_str, false)
            }
        } else {
            obj_end(s, j + 1, depth, in_str, false)
        }
    }
}

proof fn lemma_obj_end_after(s: Seq<char>, j: int, depth: nat, in_str: bool, esc: bool)
    ensures
        match obj_end(s, j, depth, in_str, esc) {
            Some(e) => j <= e < s.len(),
            None => true,
        },
    decreases s.len() - j,
{
    if 0 <= j < s.len() {
        let c = s[j];
        if esc {
            lemma_obj_end_after(s, j + 1, depth, in_str, false);
        } else if c == '\\' && in_str {
            lemma_obj_end_after(s, j + 1, depth, in_str, true);
        } else if c == '"' {
            lemma_obj_end_after(s, j + 1, depth, !in_str, false);
        } else if c == '{' && !in_str {
            lemma_obj_end_after(s, j + 1, depth + 1, in_str, false);
        } else if c == '}' && !in_str {
            if depth > 1 {
                lemma_obj_end_after(s, j + 1, (depth - 1) as nat, in_str, false);
            }
        } else {
            lemma_obj_end_after(s, j + 1, depth, in_str, false);
        }
    }
}

/// Bare top-level `{...}` runs of `s` from position `i`, left to right;
/// the scan stops at the first `{` that never closes.
pub open spec fn balanced_from(s: Seq<char>, i: int) -> Seq<Seq<char>>
    decreases s.len() - i,
{
    if i < 0 || i >= s.len() {
        Seq::empty()
    } else if s[i] == '{' {
        match obj_end(s, i, 0, false, false) {
            Some(e) => if i <= e < s.len() {
                seq![s.subrange(i, e + 1)] + balanced_from(s, e + 1)
            } else {
                Seq::empty()
            },
            None => Seq::empty(),
        }
    } else {
        balanced_from(s, i + 1)
    }
}

fn obj_end_exec(s: &[char], i: usize) -> (r: Option<usize>)
    requires
        i < s@.len(),
    ensures
        match r {
            Some(e) => obj_end(s@, i as int, 0, false, false) == Some(e as int),
            None => obj_end(s@, i as int, 0, false, false) is None,
        },
{
    let mut j = i;
    let mut depth: usize = 0;
    let mut in_str = false;
    let mut esc = false;
    while j < s.len()
        invariant
            i <= j <= s@.len(),
            depth <= j,
            obj_end(s@, i as int, 0, false, false) == obj_end(s@, j as int, depth as nat, in_str, esc),
        decreases s@.len() - j,
    {
        let c = s[j];
        if esc {
            esc = false;
        } else if c == '\\' && in_str {
            esc = true;
        } else if c == '"' {
            in_str = !in_str;
        } else if c == '{' && !in_str {
            depth = depth + 1;
        } else if c == '}' && !in_str {
            if depth <= 1 {
                return Some(j);
            }
            depth = depth - 1;
        }
        j = j + 1;
    }
    None
}

/// The bare brace-balanced objects of `s` (see `balanced_from`).
pub fn balanced_objects(s: &[char]) -> (r: Vec<Vec<char>>)
    ensures
        crate::text::views(r@) == balanced_from(s@, 0),
{
    let mut out: Vec<Vec<char>> = Vec::new();
    let mut i: usize = 0;
    let mut go = true;
    while go && i < s.len()
        invariant
            i <= s@.len(),
            go ==> balanced_from(s@, 0) == crate::text::views(out@) + balanced_from(s@, i as int),
            !go ==> balanced_from(s@, 0) == crate::text::views(out@),
        decreases s@.len() - i + if go {
            1int
        } else {
            0int
        },
    {
        if s[i] == '{' {
            proof {
                lemma_obj_end_after(s@, i as int, 0, false, false);
            }
            match obj_end_exec(s, i) {
                Some(e) => {
                    let piece = slice_to_vec(s, i, e + 1);
                    let ghost before = crate::text::views(out@);
                    out.push(piece);
                    assert(crate::text::views(out@) =~= before + seq![s@.subrange(i as int, e + 1)]);
                    i = e + 1;
                },
                None => {
                    assert(crate::text::views(out@) + Seq::<Seq<char>>::empty() =~= crate::text::views(out@));
                    go = false;
                },
            }
        } else {
            i = i + 1;
        }
    }
    proof {
        if go {
            assert(balanced_from(s@, i as int) =~= Seq::<Seq<char>>::empty());
            assert(crate::text::views(out@) + Seq::<Seq<char>>::empty() =~= crate::text::views(out@));
        }
    }
    out
}

/// Fenced code blocks of `rest`, in order: after each opening fence the
/// rest of its line (a language tag) is skipped, the body runs to the next
/// fence and is trimmed; an unclosed fence ends the search.
pub open spec fn fenced(rest: Seq<char>) -> Seq<Seq<char>>
    decreases rest.len(),
{
    match find(rest, FENCE@) {
        None => Seq::empty(),
        Some(start) => if 0 <= start && start + 3 <= rest.len() {
            let after = rest.skip(start + 3);
            let bs = match find(after, seq!['\n']) {
                Some(k) => if 0 <= k < after.len() {
                    k + 1
                } else {
                    0
                },
                None => 0,
            };
            match find(after.skip(bs), FENCE@) {
                None => Seq::empty(),
                Some(end) => if 0 <= end && bs + end + 3 <= after.len() {
                    seq![trim(after.subrange(bs, bs + end))] + fenced(after.skip(bs + end + 3))
                } else {
                    Seq::empty()
                },
            }
        } else {
            Seq::empty()
        },
    }
}

/// Candidate JSON texts: fenced blocks first, then bare balanced objects.
pub open spec fn candidates(text: Seq<char>) -> Seq<Seq<char>> {
    fenced(text) + balanced_from(text, 0)
}

fn fenced_exec(text: &[char]) -> (r: Vec<Vec<char>>)
    ensures
        crate::text::views(r@) == fenced(text@),
{
    let fence = to_chars(FENCE);
    proof {
        reveal_strlit("```");
    }
    assert(fence@.len() == 3);
    let nl = vec!['\n'];
    assert(nl@ =~= seq!['\n']);
    let mut rest = slice_to_vec(text, 0, text.len());
    assert(rest@ =~= text@);
    let mut out: Vec<Vec<char>> = Vec::new();
    let mut go = true;
    while go
        invariant
            fence@ == FENCE@,
            fence@.len() == 3,
            nl@ == seq!['\n'],
            go ==> fenced(text@) == crate::text::views(out@) + fenced(rest@),
            !go ==> fenced(text@) == crate::text::views(out@),
        decreases rest@.len() + if go {
            1int
        } else {
            0int
        },
    {
        match find_exec(rest.as_slice(), fence.as_slice()) {
            None => {
                assert(crate::text::views(out@) + Seq::<Seq<char>>::empty() =~= crate::text::views(out@));
                go = false;
            },
            Some(start) => {
                proof {
                    crate::text::lemma_find_some(rest@, fence@, start as int);
                }
                let rl = rest.len();
                let after = slice_to_vec(rest.as_slice(), start + 3, rl);
                assert(after@ =~= rest@.skip(start + 3));
                let bs: usize = match find_exec(after.as_slice(), nl.as_slice()) {
                    Some(k) => {
                        proof {
                            crate::text::lemma_find_some(after@, nl@, k as int);
                        }
                        k + 1
                    },
                    None => 0,
                };
                let al = after.len();
                let body_rest = slice_to_vec(after.as_slice(), bs, al);
                assert(body_rest@ =~= after@.skip(bs as int));
                match find_exec(body_rest.as_slice(), fence.as_slice()) {
                    None => {
                        assert(crate::text::views(out@) + Seq::<Seq<char>>::empty() =~= crate::text::views(out@));
                        go = false;
                    },
                    Some(end) => {
                        proof {
                            crate::text::lemma_find_some(body_rest@, fence@, end as int);
                        }
                        let body = slice_to_vec(after.as_slice(), bs, bs + end);
                        let t = trim_exec(body.as_slice());
                        let ghost before = crate::text::views(out@);
                        out.push(t);
                        assert(crate::text::views(out@) =~= before + seq![trim(after@.subrange(bs as int, bs + end))]);
                        let next = slice_to_vec(after.as_slice(), bs + end + 3, al);
                        assert(next@ =~= after@.skip(bs + end + 3));
                        rest = next;
                    },
                }
            },
        }
    }
    out
}

/// The candidate JSON texts of `text` (see `candidates`).
pub fn json_candidates(text: &[char]) -> (r: Vec<Vec<char>>)
    ensures
        crate::text::views(r@) == candidates(text@),
{
    let mut out = fenced_exec(text);
    let bare = balanced_objects(text);
    let ghost a = crate::text::views(out@);
    let mut i: usize = 0;
    while i < bare.len()
        invariant
            i <= bare@.len(),
            crate::text::views(out@) == a + crate::text::views(bare@).take(i as int),
        decreases bare@.len() - i,
    {
        let x = slice_to_vec(bare[i].as_slice(), 0, bare[i].len());
        assert(x@ =~= bare@[i as int]@);
        let ghost before = crate::text::views(out@);
        out.push(x);
        assert(crate::text::views(out@) =~= before.push(bare@[i as int]@));
        assert(crate::text::views(bare@).take(i + 1) =~= crate::text::views(bare@).take(i as int).push(bare@[i as int]@));
        i = i + 1;
    }
    assert(crate::text::views(bare@).take(bare@.len() as int) =~= crate::text::views(bare@));
    out
}

// ---------------------------------------------------------------------------
// Lenient parsing
// ---------------------------------------------------------------------------

/// The first character after position `i` that is not whitespace.
pub open spec fn next_significant(s: Seq<char>, i: int) -> Option<char>
    decreases s.len() - i,
{
    if i + 1 >= s.len() || i + 1 < 0 {
        None
    } else if !is_ws(s[i + 1]) {
        Some(s[i + 1])
    } else {
        next_significant(s, i + 1)
    }
}

/// `s` from position `i` with every comma outside strings that is followed
/// (past whitespace) by `}` or `]` dropped.
pub open spec fn drop_commas(s: Seq<char>, i: int, in_str: bool, esc: bool) -> Seq<char>
    decreases s.len() - i,
{
    if i < 0 || i >= s.len() {
        Seq::empty()
    } else {
        let c = s[i];
        if esc {
            seq![c] + drop_commas(s, i + 1, in_str, false)
        } else if c == '\\' && in_str {
            seq![c] + drop_commas(s, i + 1, in_str, true)
        } else if c == '"' {
            seq![c] + drop_commas(s, i + 1, !in_str, false)
        } else if c == ',' && !in_str {
            (if next_significant(s, i) == Some('}') || next_significant(s, i) == Some(']') {
                Seq::empty()
            } else {
                seq![c]
            }) + drop_commas(s, i + 1, in_str, false)
        } else {
            seq![c] + drop_commas(s, i + 1, in_str, false)
        }
    }
}

fn next_significant_exec(s: &[char], i: usize) -> (r: Option<char>)
    requires
        i < s@.len(),
    ensures
        r == next_significant(s@, i as int),
{
    let sl = s.len();
    let mut j = i + 1;
    while j < sl && is_ws_exec(s[j])
        invariant
            i < j <= s@.len(),
            sl == s@.len(),
            next_significant(s@, i as int) == next_significant(s@, j - 1),
        decreases s@.len() - j,
    {
        j = j + 1;
    }
    if j < s.len() {
        Some(s[j])
    } else {
        None
    }
}

/// Remove trailing commas before `}` and `]` outside strings.
pub fn remove_trailing_commas(s: &[char]) -> (r: Vec<char>)
    ensures
        r@ == drop_commas(s@, 0, false, false),
{
    let mut out: Vec<char> = Vec::new();
    let mut in_str = false;
    let mut esc = false;
    let mut i: usize = 0;
    while i < s.len()
        invariant
            i <= s@.len(),
            drop_commas(s@, 0, false, false) == out@ + drop_commas(s@, i as int, in_str, esc),
        decreases s@.len() - i,
    {
        let c = s[i];
        let ghost before = out@;
        let ghost st = in_str;
        let ghost se = esc;
        if esc {
            esc = false;
            out.push(c);
        } else if c == '\\' && in_str {
            esc = true;
            out.push(c);
        } else if c == '"' {
            in_str = !in_str;
            out.push(c);
        } else if c == ',' && !in_str {
            let n = next_significant_exec(s, i);
            if !(n == Some('}') || n == Some(']')) {
                out.push(c);
            }
        } else {
            out.push(c);
        }
        assert(before + drop_commas(s@, i as int, st, se) =~= out@ + drop_commas(
            s@,
            i + 1,
            in_str,
            esc,
        ));
        i = i + 1;
    }
    assert(out@ + Seq::<char>::empty() =~= out@);
    out
}


/// Smart double quotes become `"` and smart single quotes become `'`.
pub open spec fn unsmart_char(c: char) -> char {
    if c == '\u{201c}' || c == '\u{201d}' {
        '"'
    } else if c == '\u{2018}' || c == '\u{2019}' {
        '\''
    } else {
        c
    }
}

pub open spec fn unsmart(s: Seq<char>) -> Seq<char> {
    s.map_values(|c: char| unsmart_char(c))
}

/// A candidate read leniently: it must start with `{` or `[` once trimmed;
/// it is parsed as is, or else after smart quotes are straightened and
/// trailing commas dropped. The result is the document's canonical text.
pub open spec fn lenient(s: Seq<char>) -> Option<Seq<char>> {
    let t = trim(s);
    if !(t.len() > 0 && (t[0] == '{' || t[0] == '[')) {
        None
    } else {
        match json_canon(t) {
            Some(v) => Some(v),
            None => json_canon(drop_commas(unsmart(t), 0, false, false)),
        }
    }
}

/// Parse a candidate leniently (see `lenient`).
pub fn lenient_parse(s: &[char]) -> (r: Option<String>)
    ensures
        match r {
            Some(v) => lenient(s@) == Some(v@),
            None => lenient(s@) is None,
        },
{
    let t = trim_exec(s);
    if !(t.len() > 0 && (t[0] == '{' || t[0] == '[')) {
        return None;
    }
    let ts = from_chars(t.as_slice());
    match canonical_json(ts.as_str()) {
        Some(v) => Some(v),
        None => {
            let mut u: Vec<char> = Vec::new();
            let mut i: usize = 0;
            while i < t.len()
                invariant
                    i <= t@.len(),
                    u@ == unsmart(t@.take(i as int)),
                decreases t@.len() - i,
            {
                let c = t[i];
                let d = if c == '\u{201c}' || c == '\u{201d}' {
                    '"'
                } else if c == '\u{2018}' || c == '\u{2019}' {
                    '\''
                } else {
                    c
                };
                u.push(d);
                assert(unsmart(t@.take(i + 1)) =~= unsmart(t@.take(i as int)).push(unsmart_char(c)));
                i = i + 1;
            }
            assert(t@.take(t@.len() as int) =~= t@);
            let cleaned = remove_trailing_commas(u.as_slice());
            let cs = from_chars(cleaned.as_slice());
            canonical_json(cs.as_str())
        },
    }
}

// ---------------------------------------------------------------------------
// From documents to calls
// ---------------------------------------------------------------------------

/// The objects a parsed candidate offers as calls: an array's items, an
/// envelope's `tool_calls` array, or the object itself.
pub open spec fn flattened(v: Seq<char>) -> Seq<Seq<char>> {
    if json_kind_of(v) == JsonKind::Array {
        json_items_of(v)
    } else if json_kind_of(v) == JsonKind::Object {
        match json_member(v, "tool_calls"@) {
            Some(m) => if json_kind_of(m) == JsonKind::Array {
                json_items_of(m)
            } else {
                seq![v]
            },
            None => seq![v],
        }
    } else {
        Seq::empty()
    }
}

/// The candidates' objects (see `flattened`).
pub fn flatten_candidates(v: &str) -> (r: Vec<String>)
    ensures
        str_views(r@) == flattened(v@),
{
    let k = json_kind(v);
    if k == JsonKind::Array {
        let items = json_items(v);
        assert(str_views(items@) =~= items@.map_values(|s: String| s@));
        items
    } else if k == JsonKind::Object {
        match json_get(v, "tool_calls") {
            Some(m) => {
                if json_kind(m.as_str()) == JsonKind::Array {
                    let items = json_items(m.as_str());
                    assert(str_views(items@) =~= items@.map_values(|s: String| s@));
                    items
                } else {
                    let r = vec![crate::text::own(v)];
                    assert(str_views(r@) =~= seq![v@]);
                    r
                }
            },
            None => {
                let r = vec![crate::text::own(v)];
                assert(str_views(r@) =~= seq![v@]);
                r
            },
        }
    } else {
        let r: Vec<String> = Vec::new();
        assert(str_views(r@) =~= Seq::<Seq<char>>::empty());
        r
    }
}

/// The registered tool a model's name refers to: the same name, or else
/// the first registered name equal to it up to ASCII case.
pub open spec fn resolve_name(names: Seq<Seq<char>>, n: Seq<char>) -> Option<Seq<char>> {
    if names.contains(n) {
        Some(n)
    } else if exists|i: int| 0 <= i < names.len() && eq_ignore_case(#[trigger] names[i], n) {
        let i = choose|i: int|
            0 <= i < names.len() && eq_ignore_case(names[i], n) && forall|j: int|
                0 <= j < i ==> !eq_ignore_case(#[trigger] names[j], n);
        Some(names[i])
    } else {
        None
    }
}

proof fn lemma_first_case_match(names: Seq<Seq<char>>, n: Seq<char>, w: int)
    requires
        0 <= w < names.len(),
        eq_ignore_case(names[w], n),
    ensures
        exists|i: int|
            0 <= i < names.len() && eq_ignore_case(names[i], n) && forall|j: int|
                0 <= j < i ==> !eq_ignore_case(#[trigger] names[j], n),
    decreases w,
{
    if forall|j: int| 0 <= j < w ==> !eq_ignore_case(#[trigger] names[j], n) {
    } else {
        let j = choose|j: int| 0 <= j < w && eq_ignore_case(names[j], n);
        lemma_first_case_match(names, n, j);
    }
}

fn lower_vec(s: &[char]) -> (r: Vec<char>)
    ensures
        r@ == lower(s@),
{
    let mut r: Vec<char> = Vec::new();
    let mut i: usize = 0;
    while i < s.len()
        invariant
            i <= s@.len(),
            r@ == lower(s@.take(i as int)),
        decreases s@.len() - i,
    {
        r.push(lower_char_exec(s[i]));
        assert(lower(s@.take(i + 1)) =~= lower(s@.take(i as int)).push(crate::text::lower_char(s@[i as int])));
        i = i + 1;
    }
    assert(s@.take(s@.len() as int) =~= s@);
    r
}

/// Resolve a tool name against the registered names (see `resolve_name`).
pub fn resolve_tool_name(names: &Vec<String>, n: &str) -> (r: Option<String>)
    ensures
        match r {
            Some(x) => resolve_name(str_views(names@), n@) == Some(x@),
            None => resolve_name(str_views(names@), n@) is None,
        },
{
    let ghost nv = str_views(names@);
    let nc = to_chars(n);
    let mut i: usize = 0;
    while i < names.len()
        invariant
            i <= names@.len(),
            nv == str_views(names@),
            nc@ == n@,
            forall|j: int| 0 <= j < i ==> nv[j] != n@,
        decreases names@.len() - i,
    {
        let c = to_chars(names[i].as_str());
        if chars_eq(c.as_slice(), nc.as_slice()) {
            assert(nv[i as int] == n@);
            assert(nv.contains(n@));
            return Some(crate::text::own(n));
        }
        i = i + 1;
    }
    assert(!nv.contains(n@));
    let ln = lower_vec(nc.as_slice());
    let mut k: usize = 0;
    while k < names.len()
        invariant
            k <= names@.len(),
            nv == str_views(names@),
            ln@ == lower(n@),
            !nv.contains(n@),
            forall|j: int| 0 <= j < k ==> !eq_ignore_case(#[trigger] nv[j], n@),
        decreases names@.len() - k,
    {
        let c = to_chars(names[k].as_str());
        let lc = lower_vec(c.as_slice());
        if chars_eq(lc.as_slice(), ln.as_slice()) {
            proof {
                assert(eq_ignore_case(nv[k as int], n@));
                lemma_first_case_match(nv, n@, k as int);
                let w = choose|i: int|
                    0 <= i < nv.len() && eq_ignore_case(nv[i], n@) && forall|j: int|
                        0 <= j < i ==> !eq_ignore_case(#[trigger] nv[j], n@);
                if w < k {
                    assert(!eq_ignore_case(nv[w], n@));
                }
                if w > k {
                    assert(!eq_ignore_case(nv[k as int], n@));
                }
            }
            return Some(crate::text::own(names[k].as_str()));
        }
        k = k + 1;
    }
    None
}

/// The first of `keys` that `v` has as a member.
pub open spec fn first_member(v: Seq<char>, keys: Seq<Seq<char>>) -> Option<Seq<char>>
    decreases keys.len(),
{
    if keys.len() == 0 {
        None
    } else {
        match json_member(v, keys[0]) {
            Some(m) => Some(m),
            None => first_member(v, keys.drop_first()),
        }
    }
}

pub open spec fn name_keys() -> Seq<Seq<char>> {
    seq!["name"@, "tool"@, "tool_name"@, "function"@]
}

pub open spec fn arg_keys() -> Seq<Seq<char>> {
    seq!["arguments"@, "input"@, "parameters"@, "args"@]
}

/// The tool name an object gives: the first of `name`, `tool`,
/// `tool_name`, `function` present, as a string or (the OpenAI shape) an
/// object's `name` string.
pub open spec fn call_name(v: Seq<char>) -> Option<Seq<char>> {
    match first_member(v, name_keys()) {
        None => None,
        Some(m) => if json_kind_of(m) == JsonKind::String {
            json_string_of(m)
        } else if json_kind_of(m) == JsonKind::Object {
            match json_member(m, "name"@) {
                Some(n) => json_string_of(n),
                None => None,
            }
        } else {
            None
        },
    }
}

/// The arguments an object gives: the first of `arguments`, `input`,
/// `parameters`, `args`, `function.arguments` present, else `{}`; a string
/// holding JSON is read as that JSON.
pub open spec fn call_args(v: Seq<char>) -> Seq<char> {
    let raw = match first_member(v, arg_keys()) {
        Some(a) => a,
        None => match json_member(v, "function"@) {
            Some(f) => match json_member(f, "arguments"@) {
                Some(a) => a,
                None => "{}"@,
            },
            None => "{}"@,
        },
    };
    match json_string_of(raw) {
        Some(s) => match json_canon(s) {
            Some(c) => c,
            None => raw,
        },
        None => raw,
    }
}

/// The call an object describes, when it names a registered tool; its id
/// is `repaired_<tool>`.
pub open spec fn call_of(names: Seq<Seq<char>>, v: Seq<char>) -> Option<ToolCallView> {
    if json_kind_of(v) != JsonKind::Object {
        None
    } else {
        match call_name(v) {
            None => None,
            Some(n) => match resolve_name(names, n) {
                None => None,
                Some(tool) => Some(
                    ToolCallView { id: "repaired_"@ + tool, name: tool, arguments: call_args(v) },
                ),
            },
        }
    }
}

fn first_member_exec(v: &str, keys: &Vec<&str>) -> (r: Option<String>)
    ensures
        match r {
            Some(m) => first_member(v@, keys@.map_values(|k: &str| k@)) == Some(m@),
            None => first_member(v@, keys@.map_values(|k: &str| k@)) is None,
        },
{
    let ghost kv = keys@.map_values(|k: &str| k@);
    let mut i: usize = 0;
    assert(kv.skip(0) =~= kv);
    while i < keys.len()
        invariant
            i <= keys@.len(),
            kv == keys@.map_values(|k: &str| k@),
            first_member(v@, kv) == first_member(v@, kv.skip(i as int)),
        decreases keys@.len() - i,
    {
        assert(kv.skip(i as int)[0] == keys@[i as int]@);
        match json_get(v, keys[i]) {
            Some(m) => {
                return Some(m);
            },
            None => {},
        }
        assert(kv.skip(i as int).drop_first() =~= kv.skip(i + 1));
        i = i + 1;
    }
    None
}

/// The call a candidate object describes (see `call_of`).
pub fn call_from_value(names: &Vec<String>, v: &str) -> (r: Option<ToolCall>)
    ensures
        match r {
            Some(c) => call_of(str_views(names@), v@) == Some(c@),
            None => call_of(str_views(names@), v@) is None,
        },
{
    if json_kind(v) != JsonKind::Object {
        return None;
    }
    let nk = vec!["name", "tool", "tool_name", "function"];
    assert(nk@.map_values(|k: &str| k@) =~= name_keys());
    let name = match first_member_exec(v, &nk) {
        None => {
            return None;
        },
        Some(m) => {
            let k = json_kind(m.as_str());
            if k == JsonKind::String {
                json_as_str(m.as_str())
            } else if k == JsonKind::Object {
                match json_get(m.as_str(), "name") {
                    Some(n) => json_as_str(n.as_str()),
                    None => None,
                }
            } else {
                None
            }
        },
    };
    let name = match name {
        None => {
            return None;
        },
        Some(n) => n,
    };
    let tool = match resolve_tool_name(names, name.as_str()) {
        None => {
            return None;
        },
        Some(t) => t,
    };
    let ak = vec!["arguments", "input", "parameters", "args"];
    assert(ak@.map_values(|k: &str| k@) =~= arg_keys());
    let raw = match first_member_exec(v, &ak) {
        Some(a) => a,
        None => match json_get(v, "function") {
            Some(f) => match json_get(f.as_str(), "arguments") {
                Some(a) => a,
                None => crate::text::own("{}"),
            },
            None => crate::text::own("{}"),
        },
    };
    let arguments = match json_as_str(raw.as_str()) {
        Some(s) => match canonical_json(s.as_str()) {
            Some(c) => c,
            None => raw,
        },
        None => raw,
    };
    let mut id = to_chars("repaired_");
    let tc = to_chars(tool.as_str());
    extend(&mut id, tc.as_slice());
    Some(ToolCall { id: from_chars(id.as_slice()), name: tool, arguments })
}

// ---------------------------------------------------------------------------
// Scraping
// ---------------------------------------------------------------------------

/// The calls the objects of one parsed candidate describe, in order.
pub open spec fn calls_in(names: Seq<Seq<char>>, objs: Seq<Seq<char>>) -> Seq<ToolCallView>
    decreases objs.len(),
{
    if objs.len() == 0 {
        Seq::empty()
    } else {
        calls_in(names, objs.drop_last()) + match call_of(names, objs.last()) {
            Some(c) => seq![c],
            None => Seq::empty(),
        }
    }
}

/// The calls of all candidates, in order, before duplicates are dropped.
pub open spec fn raw_calls(names: Seq<Seq<char>>, cands: Seq<Seq<char>>) -> Seq<ToolCallView>
    decreases cands.len(),
{
    if cands.len() == 0 {
        Seq::empty()
    } else {
        raw_calls(names, cands.drop_last()) + match lenient(cands.last()) {
            Some(v) => calls_in(names, flattened(v)),
            None => Seq::empty(),
        }
    }
}

/// Two calls are duplicates when name and arguments agree.
pub open spec fn same_call(a: ToolCallView, b: ToolCallView) -> bool {
    a.name == b.name && a.arguments == b.arguments
}

/// `s` without the calls that repeat an earlier one.
pub open spec fn dedup(s: Seq<ToolCallView>) -> Seq<ToolCallView>
    decreases s.len(),
{
    if s.len() == 0 {
        Seq::empty()
    } else {
        let d = dedup(s.drop_last());
        if exists|i: int| 0 <= i < d.len() && same_call(#[trigger] d[i], s.last()) {
            d
        } else {
            d.push(s.last())
        }
    }
}

/// The calls scraped from assistant prose: every candidate's calls to
/// registered tools, first occurrence of each (name, arguments) only.
pub open spec fn scraped(names: Seq<Seq<char>>, text: Seq<char>) -> Seq<ToolCallView> {
    dedup(raw_calls(names, candidates(text)))
}

/// `out` is `raw` with repeats dropped, judged by name and arguments only:
/// it holds only calls of `raw`, no two with the same name and arguments,
/// and for every call of `raw` one with its name and arguments.
pub open spec fn keeps_distinct(raw: Seq<ToolCallView>, out: Seq<ToolCallView>) -> bool {
    &&& forall|j: int| 0 <= j < out.len() ==> raw.contains(#[trigger] out[j])
    &&& forall|j: int, k: int|
        0 <= j < k < out.len() ==> !(#[trigger] out[j].name == #[trigger] out[k].name
            && out[j].arguments == out[k].arguments)
    &&& forall|i: int|
        0 <= i < raw.len() ==> exists|j: int|
            0 <= j < out.len() && (#[trigger] out[j]).name == (#[trigger] raw[i]).name
                && out[j].arguments == raw[i].arguments
}

/// Dropping repeats keeps every distinct call (see `keeps_distinct`).
#[verifier::spinoff_prover]
#[verifier::rlimit(40)]
pub proof fn lemma_dedup_keeps_distinct(s: Seq<ToolCallView>)
    ensures
        keeps_distinct(s, dedup(s)),
    decreases s.len(),
{
    if s.len() > 0 {
        let p = s.drop_last();
        lemma_dedup_keeps_distinct(p);
        let d = dedup(p);
        assert forall|j: int| 0 <= j < d.len() implies s.contains(#[trigger] d[j]) by {
            assert(p.contains(d[j]));
            let i = choose|i: int| 0 <= i < p.len() && p[i] == d[j];
            assert(s[i] == p[i]);
        }
        assert(s[s.len() - 1] == s.last());
        let r = dedup(s);
        assert(forall|j: int| 0 <= j < d.len() ==> r[j] == d[j]);
        assert forall|i: int| 0 <= i < s.len() implies exists|j: int|
            0 <= j < r.len() && (#[trigger] r[j]).name == (#[trigger] s[i]).name
                && r[j].arguments == s[i].arguments by {
            if i < p.len() {
                assert(s[i] == p[i]);
                let j = choose|j: int|
                    0 <= j < d.len() && (#[trigger] d[j]).name == (#[trigger] p[i]).name
                        && d[j].arguments == p[i].arguments;
                assert(r[j] == d[j]);
            } else if exists|k: int| 0 <= k < d.len() && same_call(#[trigger] d[k], s.last()) {
                let k = choose|k: int| 0 <= k < d.len() && same_call(#[trigger] d[k], s.last());
                assert(r[k] == d[k]);
            } else {
                assert(r == d.push(s.last()));
                assert(r[d.len() as int] == s[i]);
            }
        }
    }
}

/// Scraping drops a call only when an earlier kept call has the same name
/// and the same arguments: every call the candidates yield is found, by
/// name and arguments, among the scraped calls; every scraped call is one
/// the candidates yield; and no two scraped calls repeat each other.
pub proof fn law_scraped_keeps_distinct_calls(names: Seq<Seq<char>>, text: Seq<char>)
    ensures
        keeps_distinct(raw_calls(names, candidates(text)), scraped(names, text)),
{
    lemma_dedup_keeps_distinct(raw_calls(names, candidates(text)));
}

fn push_unique(found: &mut Vec<ToolCall>, c: ToolCall)
    ensures
        crate::model::call_views(final(found)@) == if exists|i: int|
            0 <= i < old(found)@.len() && same_call(
                #[trigger] crate::model::call_views(old(found)@)[i],
                c@,
            ) {
            crate::model::call_views(old(found)@)
        } else {
            crate::model::call_views(old(found)@).push(c@)
        },
{
    let ghost fv = crate::model::call_views(found@);
    let cn = to_chars(c.name.as_str());
    let ca = to_chars(c.arguments.as_str());
    let mut i: usize = 0;
    while i < found.len()
        invariant
            i <= found@.len(),
            fv == crate::model::call_views(found@),
            cn@ == c@.name,
            ca@ == c@.arguments,
            forall|j: int| 0 <= j < i ==> !same_call(#[trigger] fv[j], c@),
        decreases found@.len() - i,
    {
        let fnm = to_chars(found[i].name.as_str());
        let fa = to_chars(found[i].arguments.as_str());
        if chars_eq(fnm.as_slice(), cn.as_slice()) && chars_eq(fa.as_slice(), ca.as_slice()) {
            assert(same_call(fv[i as int], c@));
            return;
        }
        i = i + 1;
    }
    found.push(c);
    assert(crate::model::call_views(found@) =~= fv.push(c@));
}

/// Recover tool calls written into assistant prose (see `scraped`):
/// fenced ```` ```json ```` blocks, ```` ```tool_call ```` blocks and bare
/// objects, shaped `{"name", "arguments"}`, `{"tool", "input"}`, the
/// OpenAI `{"function": {...}}` shape or a `{"tool_calls": [...]}` envelope.
pub fn scrape_tool_calls(names: &Vec<String>, text: &str) -> (r: Vec<ToolCall>)
    ensures
        crate::model::call_views(r@) == scraped(str_views(names@), text@),
{
    let ghost nv = str_views(names@);
    let chars = to_chars(text);
    let cands = json_candidates(chars.as_slice());
    let ghost cv = crate::text::views(cands@);
    let mut found: Vec<ToolCall> = Vec::new();
    let ghost mut raw: Seq<ToolCallView> = Seq::empty();
    let mut i: usize = 0;
    while i < cands.len()
        invariant
            i <= cands@.len(),
            nv == str_views(names@),
            cv == crate::text::views(cands@),
            cv == candidates(text@),
            raw == raw_calls(nv, cv.take(i as int)),
            crate::model::call_views(found@) == dedup(raw),
        decreases cands@.len() - i,
    {
        assert(cv.take(i + 1).drop_last() =~= cv.take(i as int));
        assert(cv.take(i + 1).last() == cands@[i as int]@);
        match lenient_parse(cands[i].as_slice()) {
            None => {
                assert(raw_calls(nv, cv.take(i + 1)) =~= raw);
            },
            Some(v) => {
                let objs = flatten_candidates(v.as_str());
                let ghost ov = str_views(objs@);
                let ghost base = raw;
                let mut j: usize = 0;
                while j < objs.len()
                    invariant
                        j <= objs@.len(),
                        nv == str_views(names@),
                        ov == str_views(objs@),
                        raw == base + calls_in(nv, ov.take(j as int)),
                        crate::model::call_views(found@) == dedup(raw),
                    decreases objs@.len() - j,
                {
                    assert(ov.take(j + 1).drop_last() =~= ov.take(j as int));
                    assert(ov.take(j + 1).last() == objs@[j as int]@);
                    match call_from_value(names, objs[j].as_str()) {
                        Some(c) => {
                            proof {
                                let old_raw = raw;
                                raw = raw.push(c@);
                                assert(raw.drop_last() =~= old_raw);
                                assert(base + calls_in(nv, ov.take(j + 1)) =~= old_raw + seq![c@]);
                            }
                            push_unique(&mut found, c);
                        },
                        None => {
                            assert(base + calls_in(nv, ov.take(j + 1)) =~= raw);
                        },
                    }
                    j = j + 1;
                }
                assert(ov.take(ov.len() as int) =~= ov);
                assert(raw_calls(nv, cv.take(i + 1)) =~= raw);
            },
        }
        i = i + 1;
    }
    assert(cv.take(cv.len() as int) =~= cv);
    found
}

// ---------------------------------------------------------------------------
// Validating native calls
// ---------------------------------------------------------------------------

/// Whether `args` fits `schema` by `jsonschema`, or `None` when either
/// text is not JSON or the schema does not compile.
pub uninterp spec fn schema_accepts(schema: Seq<char>, args: Seq<char>) -> Option<bool>;

/// `jsonschema::validator_for` and `Validator::iter_errors`: compile the
/// schema and render every validation error of `args`; `None` when either
/// text is not JSON or the schema does not compile. Only whether there are
/// errors is claimed to depend on the two texts alone: some keywords walk
/// per-process seeded hash maps, so which messages come in which order is
/// left unsaid.
#[verifier::external_body]
fn schema_errors(schema: &str, args: &str) -> (r: Option<Vec<String>>)
    ensures
        match r {
            Some(e) => schema_accepts(schema@, args@) == Some(e@.len() == 0),
            None => schema_accepts(schema@, args@) is None,
        },
{
    let schema: serde_json::Value = serde_json::from_str(schema).ok()?;
    let args: serde_json::Value = serde_json::from_str(args).ok()?;
    let validator = jsonschema::validator_for(&schema).ok()?;
    Some(validator.iter_errors(&args).map(|e| e.to_string()).collect())
}

/// Most schema errors quoted back to the model.
pub const MAX_SCHEMA_ERRORS: usize = 3;

/// Result of validating one native tool call.
#[derive(Debug)]
pub enum Validation {
    /// The call fits its tool's schema.
    Valid,
    /// The arguments do not fit the schema; the message is for the model.
    Invalid(String),
    UnknownTool(String),
}

pub enum ValidationView {
    Valid,
    Invalid(Seq<char>),
    UnknownTool(Seq<char>),
}

impl View for Validation {
    type V = ValidationView;

    open spec fn view(&self) -> ValidationView {
        match self {
            Validation::Valid => ValidationView::Valid,
            Validation::Invalid(m) => ValidationView::Invalid(m@),
            Validation::UnknownTool(m) => ValidationView::UnknownTool(m@),
        }
    }
}

pub open spec fn schema_names(t: Seq<crate::tokens::ToolSchemaView>) -> Seq<Seq<char>> {
    t.map_values(|x: crate::tokens::ToolSchemaView| x.name)
}

/// The schema registered under `name` (the first with that name).
pub open spec fn schema_named(t: Seq<crate::tokens::ToolSchemaView>, name: Seq<char>) -> Seq<char>
    decreases t.len(),
{
    if t.len() == 0 {
        Seq::empty()
    } else if t[0].name == name {
        t[0].parameters
    } else {
        schema_named(t.drop_first(), name)
    }
}

/// A call to an unknown tool is bounced with the list of tools; a known
/// tool's arguments are judged by `errors`, the schema's errors for them
/// (`None`: the schema does not compile, which lets the call through): none
/// lets the call through, else the first three are quoted.
pub open spec fn validation_of(
    t: Seq<crate::tokens::ToolSchemaView>,
    call: ToolCallView,
    errors: Option<Seq<Seq<char>>>,
) -> ValidationView {
    match resolve_name(schema_names(t), call.name) {
        None => ValidationView::UnknownTool(
            "unknown tool `"@ + call.name + "`. Available tools: "@ + crate::text::join(
                schema_names(t),
                ", "@,
            ),
        ),
        Some(tool) => {
            let schema = schema_named(t, tool);
            match errors {
                None => ValidationView::Valid,
                Some(errs) => if errs.len() == 0 {
                    ValidationView::Valid
                } else {
                    ValidationView::Invalid(
                        "invalid arguments for `"@ + call.name + "`: "@ + crate::text::join(
                            errs.take(if errs.len() < MAX_SCHEMA_ERRORS {
                                errs.len() as int
                            } else {
                                MAX_SCHEMA_ERRORS as int
                            }),
                            "; "@,
                        ) + ". Required schema: "@ + schema,
                    )
                },
            }
        },
    }
}

fn schema_named_exec(tools: &Vec<crate::model::ToolSchema>, name: &str) -> (r: String)
    ensures
        r@ == schema_named(crate::tokens::schema_views(tools@), name@),
{
    let ghost tv = crate::tokens::schema_views(tools@);
    let n = to_chars(name);
    let mut i: usize = 0;
    assert(tv.skip(0) =~= tv);
    while i < tools.len()
        invariant
            i <= tools@.len(),
            tv == crate::tokens::schema_views(tools@),
            n@ == name@,
            schema_named(tv, name@) == schema_named(tv.skip(i as int), name@),
        decreases tools@.len() - i,
    {
        assert(tv.skip(i as int)[0] == tools@[i as int]@);
        let c = to_chars(tools[i].name.as_str());
        if chars_eq(c.as_slice(), n.as_slice()) {
            return crate::text::own(tools[i].parameters.as_str());
        }
        assert(tv.skip(i as int).drop_first() =~= tv.skip(i + 1));
        i = i + 1;
    }
    String::new()
}

/// The schema a call is checked against: its tool's, with the name
/// resolved as `validation_of` resolves it (empty for an unknown tool).
pub open spec fn call_schema(t: Seq<crate::tokens::ToolSchemaView>, call: ToolCallView) -> Seq<char> {
    match resolve_name(schema_names(t), call.name) {
        None => Seq::empty(),
        Some(tool) => schema_named(t, tool),
    }
}

pub open spec fn opt_str_views(e: Option<Vec<String>>) -> Option<Seq<Seq<char>>> {
    match e {
        Some(v) => Some(str_views(v@)),
        None => None,
    }
}

/// Check a native tool call against the registered tools: the errors the
/// schema of its tool reports for its arguments decide (see
/// `validation_of`). Which errors are quoted is up to `jsonschema`; what is
/// stated holds of any it reports, as long as it reports some exactly when
/// the arguments do not fit.
pub fn validate_call(tools: &Vec<crate::model::ToolSchema>, call: &ToolCall) -> (r: Validation)
    ensures
        exists|errors: Option<Seq<Seq<char>>>|
            #![trigger validation_of(crate::tokens::schema_views(tools@), call@, errors)]
            match (errors, schema_accepts(call_schema(crate::tokens::schema_views(tools@), call@), call@.arguments)) {
                (None, None) => true,
                (Some(e), Some(ok)) => ok == (e.len() == 0),
                _ => false,
            } && r@ == validation_of(crate::tokens::schema_views(tools@), call@, errors),
{
    let ghost tv = crate::tokens::schema_views(tools@);
    let schema = match resolve_schema(tools, call.name.as_str()) {
        Some(s) => s,
        None => {
            let r = validation_from(tools, call, &None);
            proof {
                let e: Option<Seq<Seq<char>>> = match schema_accepts(call_schema(tv, call@), call@.arguments) {
                    None => None,
                    Some(ok) => if ok {
                        Some(Seq::empty())
                    } else {
                        Some(seq![Seq::empty()])
                    },
                };
                assert(validation_of(tv, call@, e) == validation_of(tv, call@, None));
            }
            return r;
        },
    };
    let errors = schema_errors(schema.as_str(), call.arguments.as_str());
    let r = validation_from(tools, call, &errors);
    assert(validation_of(tv, call@, opt_str_views(errors)) == r@);
    r
}

/// The schema of the tool a call names, resolved as `validation_of` does;
/// `None` for an unknown tool.
fn resolve_schema(tools: &Vec<crate::model::ToolSchema>, name: &str) -> (r: Option<String>)
    ensures
        match r {
            Some(s) => resolve_name(schema_names(crate::tokens::schema_views(tools@)), name@) is Some
                && s@ == schema_named(
                crate::tokens::schema_views(tools@),
                resolve_name(schema_names(crate::tokens::schema_views(tools@)), name@).unwrap(),
            ),
            None => resolve_name(schema_names(crate::tokens::schema_views(tools@)), name@) is None,
        },
{
    let ghost tv = crate::tokens::schema_views(tools@);
    let names = tool_names(tools);
    match resolve_tool_name(&names, name) {
        None => None,
        Some(tool) => Some(schema_named_exec(tools, tool.as_str())),
    }
}

fn tool_names(tools: &Vec<crate::model::ToolSchema>) -> (names: Vec<String>)
    ensures
        str_views(names@) == schema_names(crate::tokens::schema_views(tools@)),
{
    let ghost tv = crate::tokens::schema_views(tools@);
    let mut names: Vec<String> = Vec::new();
    let mut i: usize = 0;
    while i < tools.len()
        invariant
            i <= tools@.len(),
            tv == crate::tokens::schema_views(tools@),
            str_views(names@) == schema_names(tv.take(i as int)),
        decreases tools@.len() - i,
    {
        let ghost before = str_views(names@);
        names.push(crate::text::own(tools[i].name.as_str()));
        assert(str_views(names@) =~= before.push(tools@[i as int]@.name));
        assert(schema_names(tv.take(i + 1)) =~= schema_names(tv.take(i as int)).push(tv[i as int].name));
        i = i + 1;
    }
    assert(tv.take(tv.len() as int) =~= tv);
    names
}

/// Judge a native tool call given the errors its tool's schema reports for
/// its arguments (see `validation_of`).
#[verifier::spinoff_prover]
#[verifier::rlimit(40)]
pub fn validation_from(tools: &Vec<crate::model::ToolSchema>, call: &ToolCall, errors: &Option<Vec<String>>) -> (r: Validation)
    ensures
        r@ == validation_of(crate::tokens::schema_views(tools@), call@, opt_str_views(*errors)),
{
    let ghost tv = crate::tokens::schema_views(tools@);
    let mut names: Vec<String> = Vec::new();
    let mut i: usize = 0;
    while i < tools.len()
        invariant
            i <= tools@.len(),
            tv == crate::tokens::schema_views(tools@),
            str_views(names@) == schema_names(tv.take(i as int)),
        decreases tools@.len() - i,
    {
        let ghost before = str_views(names@);
        names.push(crate::text::own(tools[i].name.as_str()));
        assert(str_views(names@) =~= before.push(tools@[i as int]@.name));
        assert(schema_names(tv.take(i + 1)) =~= schema_names(tv.take(i as int)).push(tv[i as int].name));
        i = i + 1;
    }
    assert(tv.take(tv.len() as int) =~= tv);
    match resolve_tool_name(&names, call.name.as_str()) {
        None => {
            let mut v = to_chars("unknown tool `");
            crate::text::extend_str(&mut v, call.name.as_str());
            crate::text::extend_str(&mut v, "`. Available tools: ");
            let pieces = strings_to_chars(&names);
            let sep = to_chars(", ");
            let j = crate::text::join_exec(pieces.as_slice(), sep.as_slice());
            extend(&mut v, j.as_slice());
            Validation::UnknownTool(from_chars(v.as_slice()))
        },
        Some(tool) => {
            let schema = schema_named_exec(tools, tool.as_str());
            match errors {
                None => Validation::Valid,
                Some(errs) => {
                    if errs.len() == 0 {
                        Validation::Valid
                    } else {
                        let mut v = to_chars("invalid arguments for `");
                        crate::text::extend_str(&mut v, call.name.as_str());
                        crate::text::extend_str(&mut v, "`: ");
                        let n = if errs.len() < MAX_SCHEMA_ERRORS {
                            errs.len()
                        } else {
                            MAX_SCHEMA_ERRORS
                        };
                        let all = strings_to_chars(errs);
                        let pieces = crate::tools::sub_lines(&all, 0, n);
                        assert(crate::text::views(pieces@) =~= str_views(errs@).take(n as int));
                        let sep = to_chars("; ");
                        let j = crate::text::join_exec(pieces.as_slice(), sep.as_slice());
                        extend(&mut v, j.as_slice());
                        crate::text::extend_str(&mut v, ". Required schema: ");
                        crate::text::extend_str(&mut v, schema.as_str());
                        Validation::Invalid(from_chars(v.as_slice()))
                    }
                },
            }
        },
    }
}

/// The characters of each string.
pub fn strings_to_chars(v: &Vec<String>) -> (r: Vec<Vec<char>>)
    ensures
        crate::text::views(r@) == str_views(v@),
{
    let mut r: Vec<Vec<char>> = Vec::new();
    let mut i: usize = 0;
    while i < v.len()
        invariant
            i <= v@.len(),
            crate::text::views(r@) == str_views(v@).take(i as int),
        decreases v@.len() - i,
    {
        let ghost before = crate::text::views(r@);
        let c = to_chars(v[i].as_str());
        r.push(c);
        assert(crate::text::views(r@) =~= before.push(v@[i as int]@));
        assert(str_views(v@).take(i + 1) =~= str_views(v@).take(i as int).push(v@[i as int]@));
        i = i + 1;
    }
    assert(str_views(v@).take(v@.len() as int) =~= str_views(v@));
    r
}

} // verus!
