//! The quality check that follows a substantial turn: the prompt for the
//! checker model, how its verdict is read, and how a configured test
//! command's outcome folds into the result.
use vstd::prelude::*;

use crate::text::{
    extend, extend_str, from_chars, lines, lines_exec, slice_to_vec, starts_with_exec, to_chars,
    trim, trim_exec, trim_start, trim_start_exec, views,
};

verus! {

/// System prompt of the checker model.
pub const VERIFIER_SYSTEM: &'static str = "You verify whether completed coding work satisfies the user's request. Be concise and concrete.";

pub const CHECK_HEAD: &'static str = "A coding agent was asked to do a task and reported it done. Judge whether the result satisfies the ask.\n\nTHE ASK:\n";

pub const CHECK_DID: &'static str = "\n\nWHAT THE AGENT DID (tool actions this turn):\n";

pub const CHECK_REPORT: &'static str = "\n\nTHE AGENT'S FINAL REPORT:\n";

pub const CHECK_TAIL: &'static str = "\n\nIf the result fully satisfies the ask, respond with exactly: OK\nOtherwise respond with a short bulleted list of concrete gaps — only real, specific shortfalls (a file the ask named but wasn't produced, a case the ask required but wasn't handled, a direct contradiction with the request). Do not invent work that wasn't asked for. Do not nitpick style. If you are unsure, respond OK.";

/// Characters of command output kept in a failing check's summary.
pub const CHECK_TAIL_CHARS: usize = 1500;

pub open spec fn check_prompt_text(ask: Seq<char>, result: Seq<char>, work: Seq<char>) -> Seq<char> {
    CHECK_HEAD@ + ask + CHECK_DID@ + work + CHECK_REPORT@ + result + CHECK_TAIL@
}

/// The checker's prompt: the ask, the turn's tool actions, the final report,
/// and the instructions that bias an unsure checker to `OK`.
pub fn check_prompt(ask: &str, result: &str, work_summary: &str) -> (r: String)
    ensures
        r@ == check_prompt_text(ask@, result@, work_summary@),
{
    let mut v: Vec<char> = Vec::new();
    extend_str(&mut v, CHECK_HEAD);
    extend_str(&mut v, ask);
    extend_str(&mut v, CHECK_DID);
    extend_str(&mut v, work_summary);
    extend_str(&mut v, CHECK_REPORT);
    extend_str(&mut v, result);
    extend_str(&mut v, CHECK_TAIL);
    from_chars(v.as_slice())
}

/// A line that lists a gap: after its indentation it starts with `- ` or `* `.
pub open spec fn bullet_line(l: Seq<char>) -> bool {
    seq!['-', ' '].is_prefix_of(trim_start(l)) || seq!['*', ' '].is_prefix_of(trim_start(l))
}

pub open spec fn has_bullets(t: Seq<char>) -> bool {
    exists|i: int| 0 <= i < lines(t).len() && #[trigger] bullet_line(lines(t)[i])
}

/// How a verdict reads: a reply that lists gaps (bullet lines) fails, with
/// the trimmed text as the findings; anything else passes, `OK` and
/// ambiguous prose alike (a false alarm is worse than a missed nit).
pub open spec fn verdict(text: Seq<char>) -> (bool, Seq<char>) {
    let t = trim(text);
    if !has_bullets(t) {
        (true, Seq::empty())
    } else {
        (false, t)
    }
}

fn is_bullet(l: &[char]) -> (r: bool)
    ensures
        r == bullet_line(l@),
{
    let t = trim_start_exec(l);
    let dash = vec!['-', ' '];
    let star = vec!['*', ' '];
    assert(dash@ =~= seq!['-', ' ']);
    assert(star@ =~= seq!['*', ' ']);
    starts_with_exec(t.as_slice(), dash.as_slice()) || starts_with_exec(t.as_slice(), star.as_slice())
}

/// Read the checker's reply (see `verdict`).
pub fn parse_verdict(text: &str) -> (r: (bool, String))
    ensures
        (r.0, r.1@) == verdict(text@),
{
    let c = to_chars(text);
    let t = trim_exec(c.as_slice());
    let ls = lines_exec(t.as_slice());
    let ghost lv = views(ls@);
    let mut found = false;
    let mut i: usize = 0;
    while i < ls.len() && !found
        invariant
            i <= ls@.len(),
            lv == views(ls@),
            lv == lines(t@),
            found == (exists|j: int| 0 <= j < i && #[trigger] bullet_line(lv[j])),
        decreases ls@.len() - i,
    {
        if is_bullet(ls[i].as_slice()) {
            found = true;
        }
        assert(lv[i as int] == ls@[i as int]@);
        i = i + 1;
    }
    proof {
        if !found {
            assert(i == ls@.len());
        }
    }
    if !found {
        (true, String::new())
    } else {
        (false, from_chars(t.as_slice()))
    }
}

/// The last `n` characters of `s`, or all of it when shorter.
pub open spec fn tail(s: Seq<char>, n: nat) -> Seq<char> {
    if s.len() <= n {
        s
    } else {
        s.skip(s.len() - n)
    }
}

/// The last `n` characters of `s` (see `tail`).
pub fn tail_chars(s: &str, n: usize) -> (r: String)
    ensures
        r@ == tail(s@, n as nat),
{
    let c = to_chars(s);
    if c.len() <= n {
        from_chars(c.as_slice())
    } else {
        let t = slice_to_vec(c.as_slice(), c.len() - n, c.len());
        from_chars(t.as_slice())
    }
}

/// How a check command's run ended, as the shell reported it.
pub enum CheckRun {
    /// It exited; `success` is a zero status, `output` is stdout then stderr.
    Finished { success: bool, output: String },
    /// It could not be started; the reason.
    NotRun(String),
    TimedOut,
}

/// Outcome of a check command: whether it failed, and a one-paragraph summary.
pub struct CommandReport {
    pub failed: bool,
    pub summary: String,
}

pub open spec fn report_summary(cmd: Seq<char>, run: CheckRun) -> Seq<char> {
    let head = "check ("@ + cmd + "): "@;
    match run {
        CheckRun::Finished { success, output } => if success {
            head + "PASS"@
        } else {
            head + "FAIL\n"@ + tail(output@, CHECK_TAIL_CHARS as nat)
        },
        CheckRun::NotRun(e) => head + "could not run ("@ + e@ + ")"@,
        CheckRun::TimedOut => head + "timed out"@,
    }
}

pub open spec fn report_failed(run: CheckRun) -> bool {
    match run {
        CheckRun::Finished { success, .. } => !success,
        _ => true,
    }
}

/// Summarise a check command's run: only a clean exit passes; a failure
/// shows the last `CHECK_TAIL_CHARS` characters of its output.
pub fn command_report(cmd: &str, run: &CheckRun) -> (r: CommandReport)
    ensures
        r.failed == report_failed(*run),
        r.summary@ == report_summary(cmd@, *run),
{
    let mut v: Vec<char> = Vec::new();
    extend_str(&mut v, "check (");
    extend_str(&mut v, cmd);
    extend_str(&mut v, "): ");
    let failed = match run {
        CheckRun::Finished { success, output } => {
            if *success {
                extend_str(&mut v, "PASS");
            } else {
                extend_str(&mut v, "FAIL\n");
                let t = tail_chars(output.as_str(), CHECK_TAIL_CHARS);
                extend_str(&mut v, t.as_str());
            }
            !*success
        },
        CheckRun::NotRun(e) => {
            extend_str(&mut v, "could not run (");
            extend_str(&mut v, e.as_str());
            extend_str(&mut v, ")");
            true
        },
        CheckRun::TimedOut => {
            extend_str(&mut v, "timed out");
            true
        },
    };
    CommandReport { failed, summary: from_chars(v.as_slice()) }
}

/// The result of a check: the checker's verdict (a model failure or timeout,
/// `None`, counts as passed), then a failing command fails it and its
/// summary is appended to the findings after a blank line.
pub open spec fn settled(reply: Option<Seq<char>>, report: Option<(bool, Seq<char>)>) -> (bool, Seq<char>) {
    let (ok, findings) = match reply {
        Some(t) => verdict(t),
        None => (true, Seq::empty()),
    };
    match report {
        None => (ok, findings),
        Some((failed, summary)) => (
            ok && !failed,
            if findings.len() == 0 {
                summary
            } else {
                findings + "\n\n"@ + summary
            },
        ),
    }
}

/// Fold the checker's reply and the check command's report into `(ok, findings)`.
pub fn settle_check(reply: Option<&str>, report: Option<&CommandReport>) -> (r: (bool, String))
    ensures
        (r.0, r.1@) == settled(
            match reply {
                Some(t) => Some(t@),
                None => None,
            },
            match report {
                Some(p) => Some((p.failed, p.summary@)),
                None => None,
            },
        ),
{
    let (ok, findings) = match reply {
        Some(t) => parse_verdict(t),
        None => (true, String::new()),
    };
    match report {
        None => (ok, findings),
        Some(p) => {
            let mut v = to_chars(findings.as_str());
            let f = if v.len() == 0 {
                crate::text::own(p.summary.as_str())
            } else {
                extend_str(&mut v, "\n\n");
                extend_str(&mut v, p.summary.as_str());
                from_chars(v.as_slice())
            };
            (ok && !p.failed, f)
        },
    }
}

} // verus!
