//! Tool results and the text shaping the file tools do: output capping,
//! numbered file views, new-file previews and capped diffs.
use vstd::prelude::*;

use crate::text::{
    byte_len, byte_prefix_len, extend, extend_str, from_chars, is_byte_prefix_len, join,
    join_exec, lines, lines_exec, push_decimal, slice_to_vec, to_chars, views, decimal,
    lemma_byte_len_take_mono,
};

verus! {

#[derive(Debug, Clone)]
pub struct ToolOutput {
    pub content: String,
    pub is_error: bool,
}

impl ToolOutput {
    pub fn ok(content: &str) -> (o: ToolOutput)
        ensures
            o.content@ == content@,
            !o.is_error,
    {
        ToolOutput { content: crate::text::own(content), is_error: false }
    }

    pub fn error(content: &str) -> (o: ToolOutput)
        ensures
            o.content@ == content@,
            o.is_error,
    {
        ToolOutput { content: crate::text::own(content), is_error: true }
    }
}

/// Head lines kept when output is cut: 80% of the line cap, at least one.
pub open spec fn head_keep(max_lines: nat) -> nat {
    let k = max_lines - max_lines / 5;
    if k < 1 {
        1
    } else {
        k as nat
    }
}

/// The lines joined back, with the middle replaced by a count when lines
/// were dropped; all of them when none were (before any byte cap).
pub open spec fn cut_lines(ls: Seq<Seq<char>>, max_lines: nat) -> Seq<char> {
    let keep = head_keep(max_lines);
    let tail = max_lines - keep;
    let head = ls.take(if keep <= ls.len() {
        keep as int
    } else {
        ls.len() as int
    });
    let tail_lines = if tail > 0 && ls.len() > keep {
        ls.skip(if ls.len() >= tail {
            ls.len() - tail
        } else {
            0
        })
    } else {
        Seq::empty()
    };
    let omitted = ls.len() - (keep + tail_lines.len());
    if omitted > 0 {
        join(head, seq!['\n']) + "\n... ["@ + decimal(omitted as nat) + " lines omitted] ...\n"@
            + join(tail_lines, seq!['\n'])
    } else {
        join(ls, seq!['\n'])
    }
}

/// Output capped at write time: untouched when within both caps; else head
/// (80%) and tail lines with a count of the omitted middle, then, if still
/// over `max_bytes`, cut on a character boundary with a note.
pub open spec fn truncated(text: Seq<char>, max_lines: nat, max_bytes: nat) -> Seq<char> {
    if lines(text).len() <= max_lines && byte_len(text) <= max_bytes {
        text
    } else {
        let out = cut_lines(lines(text), max_lines);
        if byte_len(out) > max_bytes {
            out.take((choose|k: nat| is_byte_prefix_len(out, max_bytes, k)) as int)
                + "\n... [output truncated]"@
        } else {
            out
        }
    }
}

/// Cap tool output so one huge result can't blow the context budget
/// (see `truncated`). A line cap of 0 only works on text needing no cut.
pub fn truncate_output(text: &str, max_lines: usize, max_bytes: usize) -> (r: String)
    requires
        max_lines > 0 || (lines(text@).len() == 0 && byte_len(text@) <= max_bytes),
    ensures
        r@ == truncated(text@, max_lines as nat, max_bytes as nat),
{
    let (c, nbytes) = crate::text::chars_and_len(text);
    let ls = lines_exec(c.as_slice());
    if ls.len() <= max_lines && nbytes <= max_bytes {
        return crate::text::own(text);
    }
    let ghost lv = views(ls@);
    let keep = if max_lines - max_lines / 5 < 1 {
        1
    } else {
        max_lines - max_lines / 5
    };
    let tail = max_lines - keep;
    let head_n = if keep <= ls.len() {
        keep
    } else {
        ls.len()
    };
    let head = sub_lines(&ls, 0, head_n);
    let tail_lines: Vec<Vec<char>> = if tail > 0 && ls.len() > keep {
        let from = if ls.len() >= tail {
            ls.len() - tail
        } else {
            0
        };
        sub_lines(&ls, from, ls.len())
    } else {
        Vec::new()
    };
    let nl = vec!['\n'];
    assert(nl@ =~= seq!['\n']);
    assert(views(tail_lines@).len() == tail_lines@.len());
    assert(tail_lines@.len() <= tail);
    let covered = keep + tail_lines.len();
    let omitted = if ls.len() > covered {
        ls.len() - covered
    } else {
        0
    };
    let mut out = if omitted > 0 {
        join_exec(head.as_slice(), nl.as_slice())
    } else {
        join_exec(ls.as_slice(), nl.as_slice())
    };
    if omitted > 0 {
        extend_str(&mut out, "\n... [");
        push_decimal(&mut out, omitted as u64);
        extend_str(&mut out, " lines omitted] ...\n");
        let t = join_exec(tail_lines.as_slice(), nl.as_slice());
        extend(&mut out, t.as_slice());
    }
    assert(out@ == cut_lines(lv, max_lines as nat));
    let k = byte_prefix_len(out.as_slice(), max_bytes);
    if k < out.len() {
        proof {
            lemma_byte_len_take_mono(out@, k + 1, out@.len() as int);
            assert(out@.take(out@.len() as int) =~= out@);
            let c = choose|j: nat| is_byte_prefix_len(out@, max_bytes as nat, j);
            crate::text::lemma_byte_prefix_len_unique(out@, max_bytes as nat, c, k as nat);
        }
        let mut cut = slice_to_vec(out.as_slice(), 0, k);
        extend_str(&mut cut, "\n... [output truncated]");
        assert(out@.subrange(0, k as int) =~= out@.take(k as int));
        from_chars(cut.as_slice())
    } else {
        assert(out@.take(out@.len() as int) =~= out@);
        from_chars(out.as_slice())
    }
}

/// Copies of `v[from..to]`.
pub fn sub_lines(v: &Vec<Vec<char>>, from: usize, to: usize) -> (r: Vec<Vec<char>>)
    requires
        from <= to <= v@.len(),
    ensures
        views(r@) == views(v@).subrange(from as int, to as int),
{
    let mut r: Vec<Vec<char>> = Vec::new();
    let mut i = from;
    while i < to
        invariant
            from <= i <= to <= v@.len(),
            views(r@) =~= views(v@).subrange(from as int, i as int),
        decreases to - i,
    {
        let ghost before = r@;
        r.push(v[i].clone());
        assert(views(r@) =~= views(before).push(views(v@)[i as int]));
        i = i + 1;
    }
    r
}

/// Default number of lines the `read` tool returns.
pub const READ_DEFAULT_LIMIT: usize = 2000;

/// `{:>6}`: right-aligned in six columns.
pub open spec fn pad6(d: Seq<char>) -> Seq<char> {
    if d.len() < 6 {
        Seq::new((6 - d.len()) as nat, |i: int| ' ') + d
    } else {
        d
    }
}

/// One numbered line of a file view (1-based number `n`).
pub open spec fn numbered_line(n: nat, line: Seq<char>) -> Seq<char> {
    pad6(decimal(n)) + seq!['\t'] + line + seq!['\n']
}

/// Numbered lines `from..to` (0-based) of `ls`.
pub open spec fn numbered(ls: Seq<Seq<char>>, from: int, to: int) -> Seq<char>
    decreases to - from,
{
    if to <= from {
        Seq::empty()
    } else {
        numbered(ls, from, to - 1) + numbered_line(to as nat, ls[to - 1])
    }
}

/// The `read` tool's view of `content`: from line `start` (1-based,
/// default 1) at most `limit` lines (default 2000), each numbered, capped,
/// with a note when the file continues.
pub open spec fn read_view(content: Seq<char>, offset: Option<nat>, limit: Option<nat>) -> (bool, Seq<char>) {
    let start: nat = match offset {
        Some(o) => if o < 1 {
            1
        } else {
            o
        },
        None => 1,
    };
    let limit: nat = match limit {
        Some(l) => l,
        None => READ_DEFAULT_LIMIT as nat,
    };
    let ls = lines(content);
    let total = ls.len();
    let from: int = start - 1;
    let to: int = if from + limit < total {
        from + limit
    } else {
        total as int
    };
    if total == 0 {
        (false, "(empty file)"@)
    } else if to <= from {
        (true, "offset "@ + decimal(start) + " is past end of file ("@ + decimal(total) + " lines)"@)
    } else {
        let text = numbered(ls, from, to);
        let out = truncated(text, (READ_DEFAULT_LIMIT + 10) as nat, 200000);
        let shown = lines(text).len();
        if from + shown < total {
            (
                false,
                out + "\n[showing lines "@ + decimal(start) + "-"@ + decimal((from + shown) as nat)
                    + ", file has "@ + decimal(total) + " lines]"@,
            )
        } else {
            (false, out)
        }
    }
}

fn push_padded(v: &mut Vec<char>, n: u64)
    ensures
        final(v)@ == old(v)@ + pad6(decimal(n as nat)),
{
    let mut d: Vec<char> = Vec::new();
    push_decimal(&mut d, n);
    assert(d@ =~= decimal(n as nat));
    if d.len() < 6 {
        let mut k = 6 - d.len();
        let ghost pad_len = k;
        let ghost start = v@;
        while k > 0
            invariant
                k <= pad_len,
                pad_len == 6 - d@.len(),
                v@ =~= start + Seq::new((pad_len - k) as nat, |i: int| ' '),
            decreases k,
        {
            v.push(' ');
            k = k - 1;
        }
    }
    extend(v, d.as_slice());
}

/// The `read` tool's result for the text of a file (see `read_view`); the
/// flag of the result is the error flag.
pub fn read_output(content: &str, offset: Option<usize>, limit: Option<usize>) -> (o: ToolOutput)
    ensures
        (o.is_error, o.content@) == read_view(
            content@,
            match offset {
                Some(x) => Some(x as nat),
                None => None,
            },
            match limit {
                Some(x) => Some(x as nat),
                None => None,
            },
        ),
{
    let (c, _) = crate::text::chars_and_len(content);
    let ls = lines_exec(c.as_slice());
    let ghost lv = views(ls@);
    let start: usize = match offset {
        Some(o) => if o < 1 {
            1
        } else {
            o
        },
        None => 1,
    };
    let limit: usize = match limit {
        Some(l) => l,
        None => READ_DEFAULT_LIMIT,
    };
    let total = ls.len();
    if total == 0 {
        return ToolOutput::ok("(empty file)");
    }
    let from = start - 1;
    let to = if from < total && limit < total - from {
        from + limit
    } else {
        total
    };
    if to <= from {
        let mut v: Vec<char> = Vec::new();
        extend_str(&mut v, "offset ");
        push_decimal(&mut v, start as u64);
        extend_str(&mut v, " is past end of file (");
        push_decimal(&mut v, total as u64);
        extend_str(&mut v, " lines)");
        let m = from_chars(v.as_slice());
        return ToolOutput::error(m.as_str());
    }
    let mut text: Vec<char> = Vec::new();
    let mut i = from;
    while i < to
        invariant
            from <= i <= to <= ls@.len(),
            lv == views(ls@),
            text@ == numbered(lv, from as int, i as int),
        decreases to - i,
    {
        push_padded(&mut text, (i + 1) as u64);
        text.push('\t');
        extend(&mut text, ls[i].as_slice());
        text.push('\n');
        assert(text@ =~= numbered(lv, from as int, i as int) + numbered_line((i + 1) as nat, lv[i as int]));
        i = i + 1;
    }
    let text_s = from_chars(text.as_slice());
    let out = truncate_output(text_s.as_str(), READ_DEFAULT_LIMIT + 10, 200000);
    let shown = lines_exec(text.as_slice()).len();
    if shown < total - from {
        let mut v = to_chars(out.as_str());
        extend_str(&mut v, "\n[showing lines ");
        push_decimal(&mut v, start as u64);
        extend_str(&mut v, "-");
        push_decimal(&mut v, (from + shown) as u64);
        extend_str(&mut v, ", file has ");
        push_decimal(&mut v, total as u64);
        extend_str(&mut v, " lines]");
        let m = from_chars(v.as_slice());
        ToolOutput::ok(m.as_str())
    } else {
        ToolOutput::ok(out.as_str())
    }
}

/// Preview of a `write` that creates a new file: the path, the first 40
/// lines, and how many more there are.
pub open spec fn new_file_preview_text(path: Seq<char>, content: Seq<char>) -> Seq<char> {
    let ls = lines(content);
    let head = ls.take(if ls.len() < 40 {
        ls.len() as int
    } else {
        40
    });
    let more = ls.len() - head.len();
    let base = "new file: "@ + path + seq!['\n'] + join(head, seq!['\n']);
    if more > 0 {
        base + "\n… (+"@ + decimal(more as nat) + " more lines)"@
    } else {
        base
    }
}

pub fn new_file_preview(path: &str, content: &str) -> (r: String)
    ensures
        r@ == new_file_preview_text(path@, content@),
{
    let c = to_chars(content);
    let ls = lines_exec(c.as_slice());
    let n = if ls.len() < 40 {
        ls.len()
    } else {
        40
    };
    let head = sub_lines(&ls, 0, n);
    let nl = vec!['\n'];
    assert(nl@ =~= seq!['\n']);
    let mut v: Vec<char> = Vec::new();
    extend_str(&mut v, "new file: ");
    extend_str(&mut v, path);
    v.push('\n');
    let j = join_exec(head.as_slice(), nl.as_slice());
    extend(&mut v, j.as_slice());
    let more = ls.len() - n;
    if more > 0 {
        extend_str(&mut v, "\n… (+");
        push_decimal(&mut v, more as u64);
        extend_str(&mut v, " more lines)");
    }
    from_chars(v.as_slice())
}

/// The unified diff `similar` renders for `old` → `new` with `radius`
/// lines of context under the headers `old_header` and `new_header`.
pub uninterp spec fn unified_diff_text(
    old: Seq<char>,
    new: Seq<char>,
    radius: usize,
    old_header: Seq<char>,
    new_header: Seq<char>,
) -> Seq<char>;

/// `similar::TextDiff::from_lines` then `unified_diff` with
/// `context_radius(radius)` and `header(old_header, new_header)`, rendered
/// to a string; the text depends on the arguments alone.
#[verifier::external_body]
fn unified_diff(old: &str, new: &str, radius: usize, old_header: &str, new_header: &str) -> (r: String)
    ensures
        r@ == unified_diff_text(old@, new@, radius, old_header@, new_header@),
{
    similar::TextDiff::from_lines(old, new).unified_diff().context_radius(radius).header(old_header, new_header).to_string()
}

/// Lines of context around each change in a preview diff.
pub const DIFF_CONTEXT: usize = 3;

/// Most diff lines shown in a preview.
pub const DIFF_MAX_LINES: usize = 120;

/// A diff capped at `DIFF_MAX_LINES` lines, with a count of the rest.
pub open spec fn capped_diff(unified: Seq<char>) -> Seq<char> {
    let ls = lines(unified);
    if ls.len() > DIFF_MAX_LINES {
        join(ls.take(DIFF_MAX_LINES as int), seq!['\n']) + "\n… (diff truncated, "@ + decimal(
            (ls.len() - DIFF_MAX_LINES) as nat,
        ) + " more lines)"@
    } else {
        unified
    }
}

/// Cap a rendered diff for display (see `capped_diff`).
pub fn cap_diff(unified: &str) -> (r: String)
    ensures
        r@ == capped_diff(unified@),
{
    let c = to_chars(unified);
    let ls = lines_exec(c.as_slice());
    if ls.len() > DIFF_MAX_LINES {
        let head = sub_lines(&ls, 0, DIFF_MAX_LINES);
        let nl = vec!['\n'];
        assert(nl@ =~= seq!['\n']);
        let mut v = join_exec(head.as_slice(), nl.as_slice());
        extend_str(&mut v, "\n… (diff truncated, ");
        push_decimal(&mut v, (ls.len() - DIFF_MAX_LINES) as u64);
        extend_str(&mut v, " more lines)");
        from_chars(v.as_slice())
    } else {
        crate::text::own(unified)
    }
}

/// Unified diff for previews: three lines of context, `a/<path>` and
/// `b/<path>` headers, capped for terminal display.
pub fn render_diff(old: &str, new: &str, path: &str) -> (r: String)
    ensures
        r@ == capped_diff(unified_diff_text(old@, new@, DIFF_CONTEXT, "a/"@ + path@, "b/"@ + path@)),
{
    let mut a = to_chars("a/");
    extend_str(&mut a, path);
    let mut b = to_chars("b/");
    extend_str(&mut b, path);
    let ah = from_chars(a.as_slice());
    let bh = from_chars(b.as_slice());
    let d = unified_diff(old, new, DIFF_CONTEXT, ah.as_str(), bh.as_str());
    cap_diff(d.as_str())
}

} // verus!
