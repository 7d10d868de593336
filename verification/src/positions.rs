//! Positions between the editor's view of a file (1-based line, 1-based
//! byte column) and a language server's (0-based line, character offset in
//! UTF-8 bytes or UTF-16 code units), and the rendering of diagnostics.
use vstd::prelude::*;

use crate::memory::one_line;
use crate::text::{
    byte_cut, byte_len, byte_prefix_len, char_width, char_width_exec, decimal, extend, extend_str,
    from_chars, is_byte_prefix_len, lines, lines_exec, push_decimal, to_chars, views,
};

verus! {

/// How a server counts characters within a line.
#[derive(Debug, Clone, Copy, PartialEq, Eq, Structural)]
pub enum Encoding {
    Utf8,
    Utf16,
}

/// A server position: 0-based line and character offset.
#[derive(Debug, Clone, Copy, PartialEq, Eq, Structural)]
pub struct Position {
    pub line: u32,
    pub character: u32,
}

/// UTF-16 code units of one character.
pub open spec fn utf16_width(c: char) -> nat {
    if (c as u32) >= 0x10000 {
        2
    } else {
        1
    }
}

/// UTF-16 code units of `s`.
pub open spec fn utf16_len(s: Seq<char>) -> nat
    decreases s.len(),
{
    if s.len() == 0 {
        0
    } else {
        utf16_len(s.drop_last()) + utf16_width(s.last())
    }
}

pub proof fn lemma_utf16_le_bytes(s: Seq<char>)
    ensures
        utf16_len(s) <= byte_len(s),
    decreases s.len(),
{
    if s.len() > 0 {
        lemma_utf16_le_bytes(s.drop_last());
        assert(utf16_width(s.last()) <= char_width(s.last()));
    }
}

proof fn lemma_utf16_take_step(s: Seq<char>, i: int)
    requires
        0 <= i < s.len(),
    ensures
        utf16_len(s.take(i + 1)) == utf16_len(s.take(i)) + utf16_width(s[i]),
{
    assert(s.take(i + 1).drop_last() =~= s.take(i));
}

/// The first position `k >= from` whose prefix spans at least `ch` UTF-16
/// units, as a 1-based byte column; past the end, one after the last byte.
pub open spec fn utf16_column(s: Seq<char>, from: int, ch: nat) -> nat
    decreases s.len() - from,
{
    if from < 0 || from >= s.len() {
        byte_len(s) + 1
    } else if utf16_len(s.take(from)) >= ch {
        byte_len(s.take(from)) + 1
    } else {
        utf16_column(s, from + 1, ch)
    }
}

/// A server character offset on `line` as a 1-based byte column: UTF-8
/// offsets are clamped to the line; UTF-16 offsets map to the first
/// character boundary at or past them.
pub open spec fn byte_column(line: Seq<char>, character: nat, encoding: Encoding) -> nat {
    match encoding {
        Encoding::Utf8 => if character < byte_len(line) {
            character + 1
        } else {
            byte_len(line) + 1
        },
        Encoding::Utf16 => utf16_column(line, 0, character),
    }
}

/// Convert a server character offset to a 1-based byte column (see
/// `byte_column`).
pub fn from_lsp_character(line_text: &str, character: u32, encoding: Encoding) -> (r: u32)
    requires
        byte_len(line_text@) < u32::MAX,
    ensures
        r as nat == byte_column(line_text@, character as nat, encoding),
{
    let (c, len) = crate::text::chars_and_len(line_text);
    match encoding {
        Encoding::Utf8 => {
            let l = len as u32;
            if character < l {
                character + 1
            } else {
                l + 1
            }
        },
        Encoding::Utf16 => {
            let mut units: u64 = 0;
            let mut bytes: u64 = 0;
            let mut k: usize = 0;
            while k < c.len()
                invariant
                    k <= c@.len(),
                    c@ == line_text@,
                    encoding == Encoding::Utf16,
                    byte_len(c@) < u32::MAX,
                    units == utf16_len(c@.take(k as int)),
                    bytes == byte_len(c@.take(k as int)),
                    bytes <= byte_len(c@),
                    utf16_column(c@, 0, character as nat) == utf16_column(c@, k as int, character as nat),
                decreases c@.len() - k,
            {
                if units >= character as u64 {
                    assert(utf16_column(c@, k as int, character as nat) == byte_len(c@.take(k as int)) + 1);
                    return (bytes + 1) as u32;
                }
                proof {
                    lemma_utf16_take_step(c@, k as int);
                    crate::text::lemma_byte_len_take_step(c@, k as int);
                    crate::text::lemma_byte_len_take_mono(c@, k + 1, c@.len() as int);
                    assert(c@.take(c@.len() as int) =~= c@);
                    lemma_utf16_le_bytes(c@.take(k + 1));
                }
                let ck = c[k];
                let w: u64 = if (ck as u32) >= 0x10000 {
                    2
                } else {
                    1
                };
                assert(w == utf16_width(c@[k as int]));
                units = units + w;
                bytes = bytes + char_width_exec(ck) as u64;
                k = k + 1;
            }
            assert(c@.take(c@.len() as int) =~= c@);
            (bytes + 1) as u32
        },
    }
}

/// The line at `line0`, or empty past the end.
pub open spec fn line_at(content: Seq<char>, line0: nat) -> Seq<char> {
    if line0 < lines(content).len() {
        lines(content)[line0 as int]
    } else {
        Seq::empty()
    }
}

/// An editor position (1-based line and byte column) as a server
/// position: the column is clamped to the line and moved back to a
/// character boundary, then counted in the server's encoding.
pub open spec fn lsp_position(content: Seq<char>, line: nat, column: nat, encoding: Encoding) -> (nat, nat) {
    let line0: nat = if line > 0 {
        (line - 1) as nat
    } else {
        0
    };
    let text = line_at(content, line0);
    let want: nat = if column > 0 {
        (column - 1) as nat
    } else {
        0
    };
    let cut = byte_cut(text, want);
    (
        line0,
        match encoding {
            Encoding::Utf8 => byte_len(cut),
            Encoding::Utf16 => utf16_len(cut),
        },
    )
}

fn utf16_count(s: &[char]) -> (n: u64)
    requires
        byte_len(s@) <= u32::MAX,
    ensures
        n == utf16_len(s@),
{
    let mut n: u64 = 0;
    let mut k: usize = 0;
    proof {
        lemma_utf16_le_bytes(s@);
    }
    while k < s.len()
        invariant
            k <= s@.len(),
            n == utf16_len(s@.take(k as int)),
            utf16_len(s@) <= byte_len(s@) <= u32::MAX,
        decreases s@.len() - k,
    {
        proof {
            lemma_utf16_take_step(s@, k as int);
            lemma_utf16_mono(s@, k + 1);
        }
        let sk = s[k];
        let w: u64 = if (sk as u32) >= 0x10000 {
            2
        } else {
            1
        };
        assert(w == utf16_width(s@[k as int]));
        n = n + w;
        k = k + 1;
    }
    assert(s@.take(s@.len() as int) =~= s@);
    n
}

proof fn lemma_utf16_mono(s: Seq<char>, i: int)
    requires
        0 <= i <= s.len(),
    ensures
        utf16_len(s.take(i)) <= utf16_len(s),
    decreases s.len() - i,
{
    if i < s.len() {
        lemma_utf16_mono(s, i + 1);
        lemma_utf16_take_step(s, i);
    } else {
        assert(s.take(i) =~= s);
    }
}

/// Convert an editor position to a server position (see `lsp_position`).
pub fn to_lsp_position(content: &str, line: u32, column: u32, encoding: Encoding) -> (p: Position)
    ensures
        (p.line as nat, p.character as nat) == lsp_position(content@, line as nat, column as nat, encoding),
{
    let line0: u32 = if line > 0 {
        line - 1
    } else {
        0
    };
    let c = to_chars(content);
    let ls = lines_exec(c.as_slice());
    let text: Vec<char> = if (line0 as usize) < ls.len() {
        crate::text::slice_to_vec(ls[line0 as usize].as_slice(), 0, ls[line0 as usize].len())
    } else {
        Vec::new()
    };
    assert(text@ =~= line_at(content@, line0 as nat)) by {
        if (line0 as nat) < lines(content@).len() {
            assert(views(ls@)[line0 as int] == ls@[line0 as int]@);
        }
    };
    let want: u32 = if column > 0 {
        column - 1
    } else {
        0
    };
    let k = byte_prefix_len(text.as_slice(), want as usize);
    proof {
        crate::text::lemma_byte_cut(text@, want as nat, k as nat);
    }
    let cut = crate::text::slice_to_vec(text.as_slice(), 0, k);
    assert(cut@ =~= text@.take(k as int));
    let bytes = crate::text::byte_len_exec_small(cut.as_slice(), want as usize);
    proof {
        lemma_utf16_le_bytes(cut@);
    }
    let character: u32 = match encoding {
        Encoding::Utf8 => bytes as u32,
        Encoding::Utf16 => utf16_count(cut.as_slice()) as u32,
    };
    Position { line: line0, character }
}

// ---------------------------------------------------------------------------
// Diagnostics
// ---------------------------------------------------------------------------

/// How serious a diagnostic is.
#[derive(Debug, Clone, Copy, PartialEq, Eq, Structural)]
pub enum Severity {
    Error,
    Warning,
    Information,
    Hint,
    /// A severity outside the four the protocol names.
    Other,
}

/// One published diagnostic: where it starts, how serious, what it says.
#[derive(Debug)]
pub struct Diagnostic {
    pub line: u32,
    pub character: u32,
    pub severity: Option<Severity>,
    pub message: String,
}

pub struct DiagView {
    pub line: u32,
    pub character: u32,
    pub severity: Option<Severity>,
    pub message: Seq<char>,
}

impl View for Diagnostic {
    type V = DiagView;

    open spec fn view(&self) -> DiagView {
        DiagView { line: self.line, character: self.character, severity: self.severity, message: self.message@ }
    }
}

pub open spec fn diag_views(s: Seq<Diagnostic>) -> Seq<DiagView> {
    s.map_values(|d: Diagnostic| d@)
}

/// Most diagnostics listed; the rest are counted.
pub const MAX_ITEMS: usize = 10;

pub const PENDING_NOTE: &'static str = "(diagnostics pending — server still analyzing; use the lsp tool with action=diagnostics to re-check)";

/// A diagnostic without a severity counts as an error.
pub open spec fn is_error(d: DiagView) -> bool {
    d.severity is None || d.severity == Some(Severity::Error)
}

pub open spec fn is_warning(d: DiagView) -> bool {
    d.severity == Some(Severity::Warning)
}

/// `a` sorts no later than `b`: by line, then character.
pub open spec fn key_le(a: DiagView, b: DiagView) -> bool {
    a.line < b.line || (a.line == b.line && a.character <= b.character)
}

/// `x` inserted into the sorted `t` after every element that sorts no
/// later than it.
pub open spec fn insert_sorted(t: Seq<DiagView>, x: DiagView) -> Seq<DiagView>
    decreases t.len(),
{
    if t.len() == 0 || key_le(t.last(), x) {
        t.push(x)
    } else {
        insert_sorted(t.drop_last(), x).push(t.last())
    }
}

/// The stable sort of `s` by (line, character).
pub open spec fn sorted(s: Seq<DiagView>) -> Seq<DiagView>
    decreases s.len(),
{
    if s.len() == 0 {
        Seq::empty()
    } else {
        insert_sorted(sorted(s.drop_last()), s.last())
    }
}

/// The diagnostics that count as errors, in order.
pub open spec fn errors_of(s: Seq<DiagView>) -> Seq<DiagView>
    decreases s.len(),
{
    if s.len() == 0 {
        Seq::empty()
    } else if is_error(s.last()) {
        errors_of(s.drop_last()).push(s.last())
    } else {
        errors_of(s.drop_last())
    }
}

/// The warnings, in order.
pub open spec fn warnings_of(s: Seq<DiagView>) -> Seq<DiagView>
    decreases s.len(),
{
    if s.len() == 0 {
        Seq::empty()
    } else if is_warning(s.last()) {
        warnings_of(s.drop_last()).push(s.last())
    } else {
        warnings_of(s.drop_last())
    }
}

/// The 1-based byte column a diagnostic is shown at.
pub open spec fn shown_column(content: Seq<char>, d: DiagView, encoding: Encoding) -> nat {
    if (d.line as nat) < lines(content).len() {
        byte_column(lines(content)[d.line as int], d.character as nat, encoding)
    } else {
        (d.character + 1) as nat
    }
}

/// One listed diagnostic: `\n<path>:<line>:<col> <severity> <message>`.
pub open spec fn item_line(path: Seq<char>, content: Seq<char>, d: DiagView, severity: Seq<char>, encoding: Encoding) -> Seq<char> {
    seq!['\n'] + path + seq![':'] + decimal((d.line + 1) as nat) + seq![':'] + decimal(
        shown_column(content, d, encoding),
    ) + seq![' '] + severity + seq![' '] + one_line(d.message)
}

/// The listed diagnostics, from position `i` of the errors-then-warnings
/// order, up to `MAX_ITEMS` in all.
pub open spec fn items_text(path: Seq<char>, content: Seq<char>, es: Seq<DiagView>, ws: Seq<DiagView>, encoding: Encoding, n: nat) -> Seq<char>
    decreases n,
{
    if n == 0 {
        Seq::empty()
    } else {
        let i = (n - 1) as nat;
        items_text(path, content, es, ws, encoding, i) + if i < es.len() {
            item_line(path, content, es[i as int], "error"@, encoding)
        } else {
            item_line(path, content, ws[i - es.len()], "warning"@, encoding)
        }
    }
}

/// Diagnostics for a tool result: a count line, then errors before
/// warnings, each group sorted by position (stable), at most `MAX_ITEMS`
/// listed and the rest counted; other severities are left out.
pub open spec fn diagnostics_text(path: Seq<char>, content: Seq<char>, ds: Seq<DiagView>, encoding: Encoding) -> Seq<char> {
    let es = sorted(errors_of(ds));
    let ws = sorted(warnings_of(ds));
    let total = es.len() + ws.len();
    if total == 0 {
        "diagnostics: no errors or warnings"@
    } else {
        "diagnostics: "@ + decimal(es.len()) + " error(s), "@ + decimal(ws.len()) + " warning(s)"@
            + items_text(path, content, es, ws, encoding, if total < MAX_ITEMS { total } else { MAX_ITEMS as nat })
            + if total > MAX_ITEMS {
            "\n… "@ + decimal((total - MAX_ITEMS) as nat) + " more not shown"@
        } else {
            Seq::empty()
        }
    }
}

proof fn lemma_insert_sorted(t: Seq<DiagView>, x: DiagView, p: int)
    requires
        0 <= p <= t.len(),
        forall|k: int| p <= k < t.len() ==> !key_le(#[trigger] t[k], x),
        p == 0 || key_le(t[p - 1], x),
    ensures
        insert_sorted(t, x) == t.take(p).push(x) + t.skip(p),
    decreases t.len(),
{
    if t.len() == 0 {
        assert(t.take(p).push(x) + t.skip(p) =~= t.push(x));
    } else if key_le(t.last(), x) {
        if p < t.len() {
            assert(!key_le(t[t.len() - 1], x));
        }
        assert(t.take(p).push(x) + t.skip(p) =~= t.push(x));
    } else {
        assert(!key_le(t[t.len() - 1], x));
        if p == t.len() {
            assert(key_le(t[p - 1], x));
        }
        let d = t.drop_last();
        assert forall|k: int| p <= k < d.len() implies !key_le(#[trigger] d[k], x) by {
            assert(d[k] == t[k]);
        }
        if p > 0 {
            assert(d[p - 1] == t[p - 1]);
        }
        lemma_insert_sorted(d, x, p);
        assert(d.take(p).push(x) + d.skip(p) + seq![t.last()] =~= t.take(p).push(x) + t.skip(p));
    }
}


proof fn lemma_insert_len(t: Seq<DiagView>, x: DiagView)
    ensures
        insert_sorted(t, x).len() == t.len() + 1,
    decreases t.len(),
{
    if t.len() > 0 && !key_le(t.last(), x) {
        lemma_insert_len(t.drop_last(), x);
    }
}

proof fn lemma_sorted_len(s: Seq<DiagView>)
    ensures
        sorted(s).len() == s.len(),
    decreases s.len(),
{
    if s.len() > 0 {
        lemma_sorted_len(s.drop_last());
        lemma_insert_len(sorted(s.drop_last()), s.last());
    }
}

proof fn lemma_split_len(s: Seq<DiagView>)
    ensures
        errors_of(s).len() + warnings_of(s).len() <= s.len(),
    decreases s.len(),
{
    if s.len() > 0 {
        lemma_split_len(s.drop_last());
    }
}

pub open spec fn at_views(ds: Seq<DiagView>, idx: Seq<usize>) -> Seq<DiagView> {
    idx.map_values(|k: usize| ds[k as int])
}

/// Insert diagnostic `k` into the sorted index list `idx` (see `insert_sorted`).
fn insert_index(idx: &mut Vec<usize>, ds: &Vec<Diagnostic>, k: usize)
    requires
        k < ds@.len(),
        forall|j: int| 0 <= j < old(idx)@.len() ==> old(idx)@[j] < ds@.len(),
    ensures
        at_views(diag_views(ds@), final(idx)@) == insert_sorted(at_views(diag_views(ds@), old(idx)@), diag_views(ds@)[k as int]),
        forall|j: int| 0 <= j < final(idx)@.len() ==> final(idx)@[j] < ds@.len(),
{
    let ghost dv = diag_views(ds@);
    let ghost t = at_views(dv, idx@);
    let x = &ds[k];
    let mut p = idx.len();
    while p > 0 && !(ds[idx[p - 1]].line < x.line || (ds[idx[p - 1]].line == x.line && ds[idx[p - 1]].character <= x.character))
        invariant
            p <= idx@.len(),
            k < ds@.len(),
            *x == ds@[k as int],
            t.len() == idx@.len(),
            t == at_views(dv, idx@),
            dv == diag_views(ds@),
            forall|j: int| 0 <= j < idx@.len() ==> idx@[j] < ds@.len(),
            forall|m: int| p <= m < t.len() ==> !key_le(#[trigger] t[m], dv[k as int]),
        decreases p,
    {
        assert(t[p - 1] == dv[idx@[p - 1] as int]);
        assert(dv[idx@[p - 1] as int] == ds@[idx@[p - 1] as int]@);
        assert(dv[k as int] == ds@[k as int]@);
        p = p - 1;
    }
    proof {
        if p > 0 {
            assert(t[p - 1] == dv[idx@[p - 1] as int]);
            assert(dv[idx@[p - 1] as int] == ds@[idx@[p - 1] as int]@);
            assert(dv[k as int] == ds@[k as int]@);
        }
        lemma_insert_sorted(t, dv[k as int], p as int);
    }
    idx.insert(p, k);
    assert(at_views(dv, idx@) =~= t.take(p as int).push(dv[k as int]) + t.skip(p as int));
}

fn push_item(out: &mut Vec<char>, path: &str, ls: &Vec<Vec<char>>, d: &Diagnostic, severity: &str, encoding: Encoding, Ghost(content): Ghost<Seq<char>>)
    requires
        views(ls@) == lines(content),
        forall|i: int| 0 <= i < lines(content).len() ==> byte_len(#[trigger] lines(content)[i]) < u32::MAX,
        (d.line as nat) >= lines(content).len() ==> d.character < u32::MAX,
    ensures
        final(out)@ == old(out)@ + item_line(path@, content, d@, severity@, encoding),
{
    let ghost o0 = out@;
    out.push('\n');
    extend_str(out, path);
    out.push(':');
    push_decimal(out, d.line as u64 + 1);
    out.push(':');
    let col: u32 = if (d.line as usize) < ls.len() {
        let l = from_chars(ls[d.line as usize].as_slice());
        assert(views(ls@)[d.line as int] == ls@[d.line as int]@);
        from_lsp_character(l.as_str(), d.character, encoding)
    } else {
        d.character + 1
    };
    assert(col as nat == shown_column(content, d@, encoding));
    let ghost o1 = out@;
    push_decimal(out, col as u64);
    out.push(' ');
    extend_str(out, severity);
    out.push(' ');
    let m = to_chars(d.message.as_str());
    let mut i: usize = 0;
    let ghost base = out@;
    while i < m.len()
        invariant
            i <= m@.len(),
            m@ == d.message@,
            out@ == base + one_line(m@.take(i as int)),
        decreases m@.len() - i,
    {
        let ch = m[i];
        out.push(if ch == '\n' {
            ' '
        } else {
            ch
        });
        assert(one_line(m@.take(i + 1)) =~= one_line(m@.take(i as int)).push(crate::memory::unbreak(m@[i as int])));
        i = i + 1;
    }
    assert(m@.take(m@.len() as int) =~= m@);
    assert(decimal((d.line + 1) as nat) == decimal((d.line as u64 + 1) as nat));
    assert(out@ =~= o0 + item_line(path@, content, d@, severity@, encoding));
}

/// Render diagnostics for a tool result (see `diagnostics_text`). The
/// document's lines must each be shorter than `u32::MAX` bytes, as must
/// the column of a diagnostic past its end.
pub fn format_diagnostics(display_path: &str, content: &str, diagnostics: &Vec<Diagnostic>, encoding: Encoding) -> (r: String)
    requires
        forall|i: int| 0 <= i < lines(content@).len() ==> byte_len(#[trigger] lines(content@)[i]) < u32::MAX,
        forall|j: int| 0 <= j < diagnostics@.len() && (diagnostics@[j].line as nat) >= lines(content@).len() ==> #[trigger] diagnostics@[j].character < u32::MAX,
    ensures
        r@ == diagnostics_text(display_path@, content@, diag_views(diagnostics@), encoding),
{
    let ghost dv = diag_views(diagnostics@);
    let mut es: Vec<usize> = Vec::new();
    let mut ws: Vec<usize> = Vec::new();
    let mut i: usize = 0;
    while i < diagnostics.len()
        invariant
            i <= diagnostics@.len(),
            dv == diag_views(diagnostics@),
            forall|j: int| 0 <= j < es@.len() ==> es@[j] < diagnostics@.len(),
            forall|j: int| 0 <= j < ws@.len() ==> ws@[j] < diagnostics@.len(),
            at_views(dv, es@) == sorted(errors_of(dv.take(i as int))),
            at_views(dv, ws@) == sorted(warnings_of(dv.take(i as int))),
        decreases diagnostics@.len() - i,
    {
        assert(dv.take(i + 1).drop_last() =~= dv.take(i as int));
        assert(dv.take(i + 1).last() == dv[i as int]);
        let d = &diagnostics[i];
        let err = match d.severity {
            None => true,
            Some(Severity::Error) => true,
            _ => false,
        };
        let warn = match d.severity {
            Some(Severity::Warning) => true,
            _ => false,
        };
        assert(dv[i as int] == diagnostics@[i as int]@);
        assert(err == is_error(dv[i as int]));
        assert(warn == is_warning(dv[i as int]));
        assert(errors_of(dv.take(i as int)).push(dv[i as int]).drop_last() =~= errors_of(dv.take(i as int)));
        assert(warnings_of(dv.take(i as int)).push(dv[i as int]).drop_last() =~= warnings_of(dv.take(i as int)));
        if err {
            insert_index(&mut es, diagnostics, i);
        }
        if warn {
            insert_index(&mut ws, diagnostics, i);
        }
        i = i + 1;
    }
    assert(dv.take(dv.len() as int) =~= dv);
    let ghost se = sorted(errors_of(dv));
    let ghost sw = sorted(warnings_of(dv));
    proof {
        lemma_sorted_len(errors_of(dv));
        lemma_sorted_len(warnings_of(dv));
        lemma_split_len(dv);
    }
    let total = es.len() + ws.len();
    if total == 0 {
        return crate::text::own("diagnostics: no errors or warnings");
    }
    let mut out = to_chars("diagnostics: ");
    push_decimal(&mut out, es.len() as u64);
    extend_str(&mut out, " error(s), ");
    push_decimal(&mut out, ws.len() as u64);
    extend_str(&mut out, " warning(s)");
    let c = to_chars(content);
    let ls = lines_exec(c.as_slice());
    let shown = if total < MAX_ITEMS {
        total
    } else {
        MAX_ITEMS
    };
    let ghost head = out@;
    let mut n: usize = 0;
    while n < shown
        invariant
            n <= shown <= total,
            total == es@.len() + ws@.len(),
            at_views(dv, es@) == se,
            at_views(dv, ws@) == sw,
            dv == diag_views(diagnostics@),
            views(ls@) == lines(content@),
            forall|i: int| 0 <= i < lines(content@).len() ==> byte_len(#[trigger] lines(content@)[i]) < u32::MAX,
            forall|j: int| 0 <= j < diagnostics@.len() && (diagnostics@[j].line as nat) >= lines(content@).len() ==> #[trigger] diagnostics@[j].character < u32::MAX,
            forall|j: int| 0 <= j < es@.len() ==> es@[j] < diagnostics@.len(),
            forall|j: int| 0 <= j < ws@.len() ==> ws@[j] < diagnostics@.len(),
            out@ == head + items_text(display_path@, content@, se, sw, encoding, n as nat),
        decreases shown - n,
    {
        if n < es.len() {
            let k = es[n];
            assert(se[n as int] == dv[k as int]);
            assert(dv[k as int] == diagnostics@[k as int]@);
            push_item(&mut out, display_path, &ls, &diagnostics[k], "error", encoding, Ghost(content@));
        } else {
            let k = ws[n - es.len()];
            assert(sw[n - es@.len()] == dv[k as int]);
            assert(dv[k as int] == diagnostics@[k as int]@);
            push_item(&mut out, display_path, &ls, &diagnostics[k], "warning", encoding, Ghost(content@));
        }
        n = n + 1;
    }
    if total > MAX_ITEMS {
        extend_str(&mut out, "\n… ");
        push_decimal(&mut out, (total - MAX_ITEMS) as u64);
        extend_str(&mut out, " more not shown");
    }
    from_chars(out.as_slice())
}

} // verus!
