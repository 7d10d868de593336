//! Text bound for the user's terminal.
use vstd::prelude::*;

use crate::text::{from_chars, is_control, is_control_exec, to_chars};

verus! {

/// Characters that may reach the terminal: newline, tab, and anything that
/// is not a control character.
pub open spec fn printable(c: char) -> bool {
    c == '\n' || c == '\t' || !is_control(c)
}

/// `s` with every control character but newline and tab removed.
pub open spec fn sanitized(s: Seq<char>) -> Seq<char>
    decreases s.len(),
{
    if s.len() == 0 {
        Seq::empty()
    } else if printable(s.last()) {
        sanitized(s.drop_last()).push(s.last())
    } else {
        sanitized(s.drop_last())
    }
}

/// Strip terminal control characters (ESC, BEL and every other C0/C1
/// control) from untrusted text before printing it, keeping newline and
/// tab, so escape sequences in model output cannot drive the terminal.
pub fn sanitize_terminal(s: &str) -> (r: String)
    ensures
        r@ == sanitized(s@),
{
    let c = to_chars(s);
    let mut v: Vec<char> = Vec::new();
    let mut i: usize = 0;
    while i < c.len()
        invariant
            i <= c@.len(),
            c@ == s@,
            v@ == sanitized(c@.take(i as int)),
        decreases c@.len() - i,
    {
        let ch = c[i];
        if ch == '\n' || ch == '\t' || !is_control_exec(ch) {
            v.push(ch);
        }
        assert(c@.take(i + 1).drop_last() =~= c@.take(i as int));
        i = i + 1;
    }
    assert(c@.take(c@.len() as int) =~= c@);
    from_chars(v.as_slice())
}

} // verus!
