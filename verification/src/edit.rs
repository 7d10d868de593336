//! The `edit` tool's text work: exact replacement, a whitespace-tolerant
//! fallback, and the message that helps the model retry.
use vstd::prelude::*;

use crate::text::{
    byte_len, chars_and_len, chars_eq, contains, contains_exec, extend, extend_str, from_chars,
    is_ws, join, join_exec, lines, lines_exec, match_count, match_count_exec, push_decimal,
    replace_all, replace_all_exec, replace_first, replace_first_exec, to_chars, trim, trim_end,
    trim_end_exec, trim_exec, views, decimal, first_word, first_word_exec,
};

verus! {

/// Arguments of one `edit` call.
pub struct EditArgs {
    pub path: String,
    pub old_string: String,
    pub new_string: String,
    pub replace_all: bool,
}

/// Exact replacement: no match fails; one match is replaced; several are
/// replaced only with `replace_all` (all of them), and fail otherwise.
pub open spec fn exact_result(content: Seq<char>, old: Seq<char>, new: Seq<char>, all: bool) -> Option<
    (Seq<char>, nat),
> {
    let count = match_count(content, old);
    if count == 0 {
        None
    } else if count == 1 {
        Some((replace_first(content, old, new), 1))
    } else if all {
        Some((replace_all(content, old, new), count))
    } else {
        None
    }
}

/// Lines with trailing whitespace removed, joined, trailing whitespace of
/// the whole removed.
pub open spec fn norm(s: Seq<char>) -> Seq<char> {
    trim_end(join(lines(s).map_values(|l: Seq<char>| trim_end(l)), seq!['\n']))
}

/// The `tl` content lines from `start`, normalized, equal the target.
pub open spec fn window_matches(cl: Seq<Seq<char>>, start: int, tl: int, target: Seq<char>) -> bool {
    0 <= start && start + tl <= cl.len() && norm(join(cl.subrange(start, start + tl), seq!['\n']))
        == target
}

/// Lines `old` spans (at least one).
pub open spec fn target_len(old: Seq<char>) -> int {
    if lines(old).len() == 0 {
        1
    } else {
        lines(old).len() as int
    }
}

/// Whitespace-tolerant replacement: the normalized `old` must match exactly
/// one window of whole lines; those lines are replaced by the lines of
/// `new`, and a final newline of the content is kept.
pub open spec fn fuzzy_result(content: Seq<char>, old: Seq<char>, new: Seq<char>) -> Option<
    (Seq<char>, nat),
> {
    let target = norm(old);
    let cl = lines(content);
    let tl = target_len(old);
    if target.len() == 0 {
        None
    } else if exists|s: int|
        #![trigger window_matches(cl, s, tl, target)]
        window_matches(cl, s, tl, target) && forall|s2: int|
            #![trigger window_matches(cl, s2, tl, target)]
            window_matches(cl, s2, tl, target) ==> s2 == s {
        let s = choose|s: int| window_matches(cl, s, tl, target);
        let body = join(cl.take(s) + lines(new) + cl.skip(s + tl), seq!['\n']);
        Some(
            (
                if content.len() > 0 && content.last() == '\n' {
                    body.push('\n')
                } else {
                    body
                },
                1,
            ),
        )
    } else {
        None
    }
}

/// Joining two non-empty runs of pieces: the first run, the separator,
/// the second run.
pub proof fn lemma_join_append(a: Seq<Seq<char>>, b: Seq<Seq<char>>, sep: Seq<char>)
    requires
        a.len() > 0,
        b.len() > 0,
    ensures
        join(a + b, sep) == join(a, sep) + sep + join(b, sep),
    decreases b.len(),
{
    if b.len() == 1 {
        assert((a + b).drop_last() =~= a);
        assert((a + b).last() == b[0]);
    } else {
        lemma_join_append(a, b.drop_last(), sep);
        assert((a + b).drop_last() =~= a + b.drop_last());
        assert((a + b).last() == b.last());
    }
}

/// `t` begins with `p`.
pub open spec fn starts_with(t: Seq<char>, p: Seq<char>) -> bool {
    p.len() <= t.len() && t.take(p.len() as int) == p
}

/// `t` ends with `p`.
pub open spec fn ends_with(t: Seq<char>, p: Seq<char>) -> bool {
    p.len() <= t.len() && t.skip(t.len() - p.len()) == p
}

/// `body` is the lines `before`, then `mid`, then `after`, joined by
/// newlines: it begins with all of `before` and ends with all of `after`.
pub open spec fn lines_around(body: Seq<char>, before: Seq<Seq<char>>, mid: Seq<Seq<char>>, after: Seq<Seq<char>>) -> bool {
    let nl = seq!['\n'];
    &&& before.len() > 0 && mid.len() + after.len() > 0 ==> starts_with(body, join(before, nl) + nl)
    &&& after.len() > 0 && before.len() + mid.len() > 0 ==> ends_with(body, nl + join(after, nl))
    &&& before.len() + mid.len() == 0 ==> body == join(after, nl)
    &&& mid.len() + after.len() == 0 ==> body == join(before, nl)
    &&& before.len() > 0 && mid.len() > 0 && after.len() > 0 ==> body == join(before, nl) + nl + join(
        mid,
        nl,
    ) + nl + join(after, nl)
}

proof fn lemma_lines_around(before: Seq<Seq<char>>, mid: Seq<Seq<char>>, after: Seq<Seq<char>>)
    ensures
        lines_around(join(before + mid + after, seq!['\n']), before, mid, after),
{
    let nl = seq!['\n'];
    let body = join(before + mid + after, nl);
    if before.len() > 0 && mid.len() + after.len() > 0 {
        assert(before + mid + after =~= before + (mid + after));
        lemma_join_append(before, mid + after, nl);
        let p = join(before, nl) + nl;
        assert(body =~= p + join(mid + after, nl));
        assert(body.take(p.len() as int) =~= p);
    }
    if after.len() > 0 && before.len() + mid.len() > 0 {
        lemma_join_append(before + mid, after, nl);
        let q = nl + join(after, nl);
        assert(body =~= join(before + mid, nl) + q);
        assert(body.skip(body.len() - q.len()) =~= q);
    }
    if before.len() + mid.len() == 0 {
        assert(before + mid + after =~= after);
    }
    if mid.len() + after.len() == 0 {
        assert(before + mid + after =~= before);
    }
    if before.len() > 0 && mid.len() > 0 && after.len() > 0 {
        lemma_join_append(before, mid, nl);
        lemma_join_append(before + mid, after, nl);
    }
}

/// The whitespace-tolerant replacement touches only its window: it finds
/// exactly one window of whole lines matching the normalized `old`, and the
/// result holds every content line before the window, then the lines of
/// `new`, then every content line after the window, a final newline of the
/// content kept; it counts one replacement.
pub proof fn law_fuzzy_keeps_lines_around_window(content: Seq<char>, old: Seq<char>, new: Seq<char>)
    requires
        fuzzy_result(content, old, new) is Some,
    ensures
        ({
            let cl = lines(content);
            let tl = target_len(old);
            let r = fuzzy_result(content, old, new).unwrap();
            let ends_nl = content.len() > 0 && content.last() == '\n';
            let body = if ends_nl {
                r.0.drop_last()
            } else {
                r.0
            };
            &&& r.1 == 1
            &&& ends_nl ==> r.0.len() > 0 && r.0.last() == '\n'
            &&& exists|s: int|
                #![trigger window_matches(cl, s, tl, norm(old))]
                window_matches(cl, s, tl, norm(old)) && (forall|s2: int|
                    #![trigger window_matches(cl, s2, tl, norm(old))]
                    window_matches(cl, s2, tl, norm(old)) ==> s2 == s) && lines_around(
                    body,
                    cl.take(s),
                    lines(new),
                    cl.skip(s + tl),
                )
        }),
{
    let cl = lines(content);
    let tl = target_len(old);
    let target = norm(old);
    let s = choose|s: int| window_matches(cl, s, tl, target);
    let body = join(cl.take(s) + lines(new) + cl.skip(s + tl), seq!['\n']);
    lemma_lines_around(cl.take(s), lines(new), cl.skip(s + tl));
    if content.len() > 0 && content.last() == '\n' {
        assert(body.push('\n').drop_last() =~= body);
    }
}

pub open spec fn opt_pair_view(r: Option<(String, usize)>) -> Option<(Seq<char>, nat)> {
    match r {
        Some((s, n)) => Some((s@, n as nat)),
        None => None,
    }
}

/// Replace `old_string` by `new_string` in `content` when it matches
/// exactly (see `exact_result`).
pub fn exact_replace(content: &str, args: &EditArgs) -> (r: Option<(String, usize)>)
    ensures
        opt_pair_view(r) == exact_result(
            content@,
            args.old_string@,
            args.new_string@,
            args.replace_all,
        ),
{
    let (c, _) = chars_and_len(content);
    let old = to_chars(args.old_string.as_str());
    let new = to_chars(args.new_string.as_str());
    let count = match_count_exec(c.as_slice(), old.as_slice());
    if count == 0 {
        None
    } else if count == 1 {
        let out = replace_first_exec(c.as_slice(), old.as_slice(), new.as_slice());
        Some((from_chars(out.as_slice()), 1))
    } else if args.replace_all {
        let out = replace_all_exec(c.as_slice(), old.as_slice(), new.as_slice());
        Some((from_chars(out.as_slice()), count))
    } else {
        None
    }
}

fn norm_exec(s: &[char]) -> (r: Vec<char>)
    ensures
        r@ == norm(s@),
{
    let ls = lines_exec(s);
    let mut trimmed: Vec<Vec<char>> = Vec::new();
    let mut i: usize = 0;
    while i < ls.len()
        invariant
            i <= ls@.len(),
            views(trimmed@) =~= views(ls@).take(i as int).map_values(|l: Seq<char>| trim_end(l)),
        decreases ls@.len() - i,
    {
        let ghost before = trimmed@;
        trimmed.push(trim_end_exec(ls[i].as_slice()));
        assert(views(trimmed@) =~= views(before).push(trim_end(views(ls@)[i as int])));
        assert(views(ls@).take(i + 1).map_values(|l: Seq<char>| trim_end(l)) =~= views(ls@).take(
            i as int,
        ).map_values(|l: Seq<char>| trim_end(l)).push(trim_end(views(ls@)[i as int])));
        i = i + 1;
    }
    assert(views(ls@).take(ls@.len() as int) =~= views(ls@));
    let nl = vec!['\n'];
    assert(nl@ =~= seq!['\n']);
    let joined = join_exec(trimmed.as_slice(), nl.as_slice());
    trim_end_exec(joined.as_slice())
}

/// Copies of `v[from..to]`.
fn sub_lines(v: &Vec<Vec<char>>, from: usize, to: usize) -> (r: Vec<Vec<char>>)
    requires
        from <= to <= v@.len(),
    ensures
        views(r@) == views(v@).subrange(from as int, to as int),
{
    let mut r: Vec<Vec<char>> = Vec::new();
    let mut i = from;
    while i < to
        invariant
            from <= i <= to <= v@.len(),
            views(r@) =~= views(v@).subrange(from as int, i as int),
        decreases to - i,
    {
        let ghost before = r@;
        r.push(v[i].clone());
        assert(views(r@) =~= views(before).push(views(v@)[i as int]));
        i = i + 1;
    }
    r
}

/// Whitespace-tolerant replacement (see `fuzzy_result`): tolerates the
/// model getting indentation or trailing spaces slightly wrong.
pub fn fuzzy_replace(content: &str, args: &EditArgs) -> (r: Option<(String, usize)>)
    ensures
        opt_pair_view(r) == fuzzy_result(content@, args.old_string@, args.new_string@),
{
    let old = to_chars(args.old_string.as_str());
    let target = norm_exec(old.as_slice());
    if target.len() == 0 {
        return None;
    }
    let c = to_chars(content);
    let cl = lines_exec(c.as_slice());
    let ol = lines_exec(old.as_slice());
    let tl: usize = if ol.len() == 0 {
        1
    } else {
        ol.len()
    };
    let ghost cv = views(cl@);
    let ghost tls = target_len(old@);
    assert(tls == tl as int);
    if tl > cl.len() {
        assert forall|s: int| !window_matches(cv, s, tls, target@) by {}
        return None;
    }
    let last_start = cl.len() - tl;
    let mut found: Option<usize> = None;
    let mut many = false;
    let mut s: usize = 0;
    let nl = vec!['\n'];
    assert(nl@ =~= seq!['\n']);
    while s <= last_start
        invariant
            last_start + tl == cl@.len(),
            tl >= 1,
            cl@.len() <= usize::MAX,
            cv == views(cl@),
            tls == tl as int,
            nl@ == seq!['\n'],
            s <= last_start + 1,
            !many ==> match found {
                Some(f) => f < s && window_matches(cv, f as int, tls, target@) && forall|s2: int|
                    0 <= s2 < s && s2 != f ==> !window_matches(cv, s2, tls, target@),
                None => forall|s2: int| 0 <= s2 < s ==> !window_matches(cv, s2, tls, target@),
            },
            many ==> exists|a: int, b: int|
                a != b && window_matches(cv, a, tls, target@) && window_matches(cv, b, tls, target@),
        decreases last_start + 1 - s,
    {
        let window = sub_lines(&cl, s, s + tl);
        let joined = join_exec(window.as_slice(), nl.as_slice());
        let w = norm_exec(joined.as_slice());
        if chars_eq(w.as_slice(), target.as_slice()) {
            assert(window_matches(cv, s as int, tls, target@));
            match found {
                Some(f) => {
                    if !many {
                        assert(window_matches(cv, f as int, tls, target@));
                    }
                    many = true;
                },
                None => {
                    found = Some(s);
                },
            }
        }
        s = s + 1;
    }
    if many {
        proof {
            let (a, b) = choose|a: int, b: int|
                a != b && window_matches(cv, a, tls, target@) && window_matches(cv, b, tls, target@);
            assert(!(exists|x: int|
                #![trigger window_matches(cv, x, tls, target@)]
                window_matches(cv, x, tls, target@) && forall|s2: int|
                    #![trigger window_matches(cv, s2, tls, target@)]
                    window_matches(cv, s2, tls, target@) ==> s2 == x)) by {
                if exists|x: int|
                    #![trigger window_matches(cv, x, tls, target@)]
                    window_matches(cv, x, tls, target@) && forall|s2: int|
                        #![trigger window_matches(cv, s2, tls, target@)]
                        window_matches(cv, s2, tls, target@) ==> s2 == x {
                    let x = choose|x: int|
                        #![trigger window_matches(cv, x, tls, target@)]
                        window_matches(cv, x, tls, target@) && forall|s2: int|
                            #![trigger window_matches(cv, s2, tls, target@)]
                            window_matches(cv, s2, tls, target@) ==> s2 == x;
                    assert(a == x && b == x);
                }
            }
        }
        return None;
    }
    let start = match found {
        None => {
            proof {
                assert forall|s2: int| !window_matches(cv, s2, tls, target@) by {
                    if 0 <= s2 && s2 + tls <= cv.len() {
                        assert(s2 < s);
                    }
                }
            }
            return None;
        },
        Some(f) => f,
    };
    proof {
        assert forall|s2: int| window_matches(cv, s2, tls, target@) implies s2 == start as int by {
            if s2 != start as int {
                assert(s2 <= last_start);
            }
        }
        let x = choose|x: int| window_matches(cv, x, tls, target@);
        assert(x == start as int);
    }
    let nw = to_chars(args.new_string.as_str());
    let nl_lines = lines_exec(nw.as_slice());
    let mut pieces = sub_lines(&cl, 0, start);
    let mut mid = sub_lines(&nl_lines, 0, nl_lines.len());
    let mut tail = sub_lines(&cl, start + tl, cl.len());
    let ghost p0 = views(pieces@);
    let ghost p1 = views(mid@);
    let ghost p2 = views(tail@);
    pieces.append(&mut mid);
    pieces.append(&mut tail);
    assert(views(pieces@) =~= p0 + p1 + p2);
    assert(p0 =~= cv.take(start as int));
    assert(p1 =~= lines(nw@));
    assert(p2 =~= cv.skip(start + tl));
    let mut out = join_exec(pieces.as_slice(), nl.as_slice());
    if c.len() > 0 && c[c.len() - 1] == '\n' {
        out.push('\n');
    }
    Some((from_chars(out.as_slice()), 1))
}

/// Number of leading characters before the first whitespace.
/// Index of the first line of `content` containing `key`, when `first`
/// (the trimmed first line of old_string) is non-empty.
pub open spec fn near_line(content: Seq<char>, first: Seq<char>) -> Option<Seq<char>> {
    let cl = lines(content);
    let key = first_word(first);
    if first.len() > 0 && exists|i: int| 0 <= i < cl.len() && contains(#[trigger] cl[i], key) {
        let i = choose|i: int|
            0 <= i < cl.len() && contains(cl[i], key) && forall|j: int|
                0 <= j < i ==> !contains(#[trigger] cl[j], key);
        Some(cl[i])
    } else {
        None
    }
}

pub open spec fn first_line_of(s: Seq<char>) -> Seq<char> {
    if lines(s).len() > 0 {
        trim(lines(s)[0])
    } else {
        Seq::empty()
    }
}

/// The message sent back to the model when nothing matched.
pub open spec fn no_match_text(content: Seq<char>, old: Seq<char>) -> Seq<char> {
    let count = match_count(content, old);
    if count > 1 {
        "old_string matches "@ + decimal(count)
            + " times; make it unique by including surrounding lines, or set replace_all"@
    } else {
        match near_line(content, first_line_of(old)) {
            None => "old_string not found in file. Re-read the file and copy the text exactly."@,
            Some(near) => "old_string not found. Closest line in file: `"@ + near
                + "`. Re-read the file and copy the text exactly."@,
        }
    }
}

/// Help the model self-correct: say how often old_string matched, or show
/// the first line of the file that shares the first word of old_string.
pub fn no_match_message(content: &str, old: &str) -> (r: String)
    ensures
        r@ == no_match_text(content@, old@),
{
    let (c, _) = chars_and_len(content);
    let (o, _) = chars_and_len(old);
    let count = match_count_exec(c.as_slice(), o.as_slice());
    if count > 1 {
        let mut v: Vec<char> = Vec::new();
        extend_str(&mut v, "old_string matches ");
        push_decimal(&mut v, count as u64);
        extend_str(
            &mut v,
            " times; make it unique by including surrounding lines, or set replace_all",
        );
        return from_chars(v.as_slice());
    }
    let ol = lines_exec(o.as_slice());
    let first: Vec<char> = if ol.len() > 0 {
        trim_exec(ol[0].as_slice())
    } else {
        Vec::new()
    };
    let key = first_word_exec(first.as_slice());
    let cl = lines_exec(c.as_slice());
    let ghost cv = views(cl@);
    let mut near: Option<usize> = None;
    if first.len() > 0 {
        let mut i: usize = 0;
        while i < cl.len() && near.is_none()
            invariant
                i <= cl@.len(),
                cv == views(cl@),
                match near {
                    Some(k) => k < i && contains(cv[k as int], key@) && forall|j: int|
                        0 <= j < k ==> !contains(#[trigger] cv[j], key@),
                    None => forall|j: int| 0 <= j < i ==> !contains(#[trigger] cv[j], key@),
                },
            decreases cl@.len() - i,
        {
            if contains_exec(cl[i].as_slice(), key.as_slice()) {
                near = Some(i);
            }
            i = i + 1;
        }
    }
    proof {
        match near {
            Some(i) => {
                let f = choose|f: int|
                    0 <= f < cv.len() && contains(cv[f], key@) && forall|j: int|
                        0 <= j < f ==> !contains(#[trigger] cv[j], key@);
                assert(0 <= i < cv.len() && contains(cv[i as int], key@));
                assert(first@.len() > 0);
                assert(f == i as int) by {
                    if f < i {
                        assert(!contains(cv[f], key@));
                    } else if f > i {
                        assert(!contains(cv[i as int], key@));
                    }
                }
            },
            None => {},
        }
    }
    match near {
        None => crate::text::own(
            "old_string not found in file. Re-read the file and copy the text exactly.",
        ),
        Some(i) => {
            let mut v: Vec<char> = Vec::new();
            extend_str(&mut v, "old_string not found. Closest line in file: `");
            extend(&mut v, cl[i].as_slice());
            extend_str(&mut v, "`. Re-read the file and copy the text exactly.");
            from_chars(v.as_slice())
        },
    }
}

pub const IDENTICAL_MSG: &'static str = "old_string and new_string are identical";

/// An edit whose old and new text are the same is refused before the file
/// is read.
pub fn reject_args(args: &EditArgs) -> (r: Option<String>)
    ensures
        match r {
            Some(m) => args.old_string@ == args.new_string@ && m@ == IDENTICAL_MSG@,
            None => args.old_string@ != args.new_string@,
        },
{
    if crate::text::str_eq(args.old_string.as_str(), args.new_string.as_str()) {
        Some(crate::text::own(IDENTICAL_MSG))
    } else {
        None
    }
}

/// The new file content and the number of replacements, or the message
/// for the model: an edit that changes nothing is refused, then exact
/// replacement is tried first, then the tolerant one.
pub open spec fn edit_result(content: Seq<char>, old: Seq<char>, new: Seq<char>, all: bool) -> Result<
    (Seq<char>, nat),
    Seq<char>,
> {
    if old == new {
        Err(IDENTICAL_MSG@)
    } else {
        match exact_result(content, old, new, all) {
            Some(r) => Ok(r),
            None => match fuzzy_result(content, old, new) {
                Some(r) => Ok(r),
                None => Err(no_match_text(content, old)),
            },
        }
    }
}

/// Apply one edit to `content` (see `edit_result`).
pub fn apply_edit(content: &str, args: &EditArgs) -> (r: Result<(String, usize), String>)
    ensures
        match r {
            Ok((s, n)) => edit_result(
                content@,
                args.old_string@,
                args.new_string@,
                args.replace_all,
            ) == Ok::<(Seq<char>, nat), Seq<char>>((s@, n as nat)),
            Err(m) => edit_result(
                content@,
                args.old_string@,
                args.new_string@,
                args.replace_all,
            ) == Err::<(Seq<char>, nat), Seq<char>>(m@),
        },
{
    if let Some(m) = reject_args(args) {
        return Err(m);
    }
    match exact_replace(content, args) {
        Some(r) => Ok(r),
        None => match fuzzy_replace(content, args) {
            Some(r) => Ok(r),
            None => Err(no_match_message(content, args.old_string.as_str())),
        },
    }
}

} // verus!
