//! Global runtime state, `~/.rocinante/state.toml`: the last model chosen,
//! so the next launch starts on it. Only a model name is ever stored.
use vstd::prelude::*;

use crate::paths::{join_path, joined};
use crate::text::{extend_str, from_chars, to_chars};

verus! {

/// The remembered state.
#[derive(Debug, Clone)]
pub struct State {
    /// The model name (alias, `provider/model` or bare tag) last selected;
    /// `None` until the user picks one.
    pub last_model: Option<String>,
}

impl Default for State {
    fn default() -> (r: State)
        ensures
            r.last_model.is_none(),
    {
        State { last_model: None }
    }
}

/// A control character, which a TOML basic string may not hold raw.
pub open spec fn is_control(c: char) -> bool {
    (c as u32) <= 0x1F || (c as u32) == 0x7F
}

/// The upper-case hexadecimal digit of `n` (below 16).
pub open spec fn hex_digit(n: u32) -> char {
    if n < 10 {
        (n + 48) as char
    } else {
        (n + 55) as char
    }
}

/// The value of a hexadecimal digit written by `hex_digit`.
pub open spec fn hex_value(d: char) -> u32 {
    if (d as u32) < 58 {
        ((d as u32) - 48) as u32
    } else {
        ((d as u32) - 55) as u32
    }
}

/// `\u00XY` for a control character.
pub open spec fn unicode_escape(c: char) -> Seq<char> {
    seq!['\\', 'u', '0', '0', hex_digit((c as u32) / 16), hex_digit((c as u32) % 16)]
}

/// The escape of one character inside a TOML basic string: quote,
/// backslash, newline, carriage return and tab by their short escapes,
/// every other control character as `\u00XY`.
pub open spec fn toml_escape(c: char) -> Seq<char> {
    if c == '"' {
        seq!['\\', '"']
    } else if c == '\\' {
        seq!['\\', '\\']
    } else if c == '\n' {
        seq!['\\', 'n']
    } else if c == '\r' {
        seq!['\\', 'r']
    } else if c == '\t' {
        seq!['\\', 't']
    } else if is_control(c) {
        unicode_escape(c)
    } else {
        seq![c]
    }
}

pub open spec fn toml_escaped(s: Seq<char>) -> Seq<char>
    decreases s.len(),
{
    if s.len() == 0 {
        Seq::empty()
    } else {
        toml_escaped(s.drop_last()) + toml_escape(s.last())
    }
}

/// A TOML basic string holding `s`: quoted, with `"`, `\` and every
/// control character escaped.
pub open spec fn toml_string_spec(s: Seq<char>) -> Seq<char> {
    seq!['"'] + toml_escaped(s) + seq!['"']
}

fn hex_digit_exec(n: u32) -> (d: char)
    requires
        n < 16,
    ensures
        d == hex_digit(n),
{
    if n < 10 {
        ((n + 48) as u8) as char
    } else {
        ((n + 55) as u8) as char
    }
}

/// Encode `s` as a TOML basic string (see `toml_string_spec`).
pub fn toml_string(s: &str) -> (r: String)
    ensures
        r@ == toml_string_spec(s@),
{
    let cs = to_chars(s);
    let mut v: Vec<char> = vec!['"'];
    assert(v@ =~= seq!['"'] + toml_escaped(cs@.take(0)));
    let mut i: usize = 0;
    while i < cs.len()
        invariant
            i <= cs@.len(),
            cs@ == s@,
            v@ =~= seq!['"'] + toml_escaped(cs@.take(i as int)),
        decreases cs@.len() - i,
    {
        let c = cs[i];
        let ghost before = v@;
        if c == '"' {
            v.push('\\');
            v.push('"');
        } else if c == '\\' {
            v.push('\\');
            v.push('\\');
        } else if c == '\n' {
            v.push('\\');
            v.push('n');
        } else if c == '\r' {
            v.push('\\');
            v.push('r');
        } else if c == '\t' {
            v.push('\\');
            v.push('t');
        } else if (c as u32) <= 0x1F || (c as u32) == 0x7F {
            let n = c as u32;
            v.push('\\');
            v.push('u');
            v.push('0');
            v.push('0');
            v.push(hex_digit_exec(n / 16));
            v.push(hex_digit_exec(n % 16));
        } else {
            v.push(c);
        }
        proof {
            assert(cs@.take(i + 1).drop_last() =~= cs@.take(i as int));
            assert(v@ =~= before + toml_escape(c));
        }
        i = i + 1;
    }
    assert(cs@.take(cs@.len() as int) =~= cs@);
    v.push('"');
    from_chars(v.as_slice())
}

/// The content of the state file remembering model `name`.
pub open spec fn state_content(name: Seq<char>) -> Seq<char> {
    "last_model = "@ + toml_string_spec(name) + "\n"@
}

/// The text written to the state file for model `name`.
pub fn state_file_content(name: &str) -> (r: String)
    ensures
        r@ == state_content(name@),
{
    let mut v = to_chars("last_model = ");
    let q = toml_string(name);
    extend_str(&mut v, q.as_str());
    extend_str(&mut v, "\n");
    from_chars(v.as_slice())
}

/// Where the state file lives, under the home directory; `None` when the
/// home directory is unknown.
pub fn state_path(home: Option<&str>) -> (r: Option<String>)
    ensures
        match home {
            Some(h) => r.is_some() && r.unwrap()@ == joined(h@, ".rocinante/state.toml"@),
            None => r.is_none(),
        },
{
    match home {
        Some(h) => Some(join_path(h, ".rocinante/state.toml")),
        None => None,
    }
}

/// Reading back an escaped string: `\u00XY` stands for the character with
/// that code, and each other `\` with the character after it for one
/// character.
pub open spec fn toml_unescape(t: Seq<char>) -> Seq<char>
    decreases t.len(),
{
    if t.len() == 0 {
        Seq::empty()
    } else if t[0] == '\\' && t.len() >= 6 && t[1] == 'u' {
        seq![((16 * hex_value(t[4]) + hex_value(t[5])) as u32) as char] + toml_unescape(t.skip(6))
    } else if t[0] == '\\' && t.len() >= 2 {
        seq![
            if t[1] == 'n' {
                '\n'
            } else if t[1] == 'r' {
                '\r'
            } else if t[1] == 't' {
                '\t'
            } else {
                t[1]
            },
        ] + toml_unescape(t.skip(2))
    } else {
        seq![t[0]] + toml_unescape(t.drop_first())
    }
}

proof fn lemma_unescape_append(a: Seq<char>, c: char)
    ensures
        toml_unescape(toml_escaped(a) + toml_escape(c)) == toml_unescape(toml_escaped(a)) + seq![c],
    decreases a.len(),
{
    lemma_unescape_concat(toml_escaped(a), toml_escape(c), a);
    let e = toml_escape(c);
    let empty = Seq::<char>::empty();
    assert(toml_unescape(empty) =~= empty);
    if e.len() == 6 {
        let v = c as u32;
        lemma_hex(v / 16);
        lemma_hex(v % 16);
        assert(e.skip(6) =~= empty);
        assert(16 * (v / 16) + v % 16 == v);
        assert(toml_unescape(e) == seq![((16 * hex_value(e[4]) + hex_value(e[5])) as u32) as char] + toml_unescape(empty));
        assert(toml_unescape(e) =~= seq![c]);
    } else if e.len() == 2 {
        assert(e.skip(2) =~= empty);
        assert(e[0] == '\\');
        assert(toml_unescape(e) == seq![
            if e[1] == 'n' {
                '\n'
            } else if e[1] == 'r' {
                '\r'
            } else if e[1] == 't' {
                '\t'
            } else {
                e[1]
            },
        ] + toml_unescape(empty));
        assert(toml_unescape(e) =~= seq![c]);
    } else {
        assert(e =~= seq![c]);
        assert(e.drop_first() =~= empty);
        assert(toml_unescape(e) == seq![e[0]] + toml_unescape(empty));
        assert(toml_unescape(e) =~= seq![c]);
    }
}

/// Reading a digit back gives its value.
proof fn lemma_hex(n: u32)
    requires
        n < 16,
    ensures
        hex_value(hex_digit(n)) == n,
{
}

/// Unescaping an escaped prefix and then the rest is unescaping the whole.
proof fn lemma_unescape_concat(x: Seq<char>, y: Seq<char>, a: Seq<char>)
    requires
        x == toml_escaped(a),
    ensures
        toml_unescape(x + y) == toml_unescape(x) + toml_unescape(y),
    decreases a.len(),
{
    if a.len() == 0 {
        assert(x =~= Seq::<char>::empty());
        assert(x + y =~= y);
        assert(toml_unescape(x) =~= Seq::<char>::empty());
    } else {
        lemma_escape_front(a);
        let c = a[0];
        let e = toml_escape(c);
        let rest = toml_escaped(a.drop_first());
        assert(x == e + rest);
        lemma_unescape_concat(rest, y, a.drop_first());
        if e.len() == 6 {
            assert((x + y).skip(6) =~= rest + y);
            assert(x.skip(6) =~= rest);
            assert((x + y)[0] == x[0] && (x + y)[1] == x[1] && (x + y)[4] == x[4] && (x + y)[5] == x[5]);
        } else if e.len() == 2 {
            assert((x + y).skip(2) =~= rest + y);
            assert(x.skip(2) =~= rest);
            assert((x + y)[0] == x[0] && (x + y)[1] == x[1]);
        } else {
            assert((x + y).drop_first() =~= rest + y);
            assert(x.drop_first() =~= rest);
            assert((x + y)[0] == x[0]);
        }
        assert(toml_unescape(x + y) =~= toml_unescape(x) + toml_unescape(y));
    }
}

/// The escape of a string is the escape of its first character followed by
/// the escape of the rest.
proof fn lemma_escape_front(a: Seq<char>)
    requires
        a.len() > 0,
    ensures
        toml_escaped(a) == toml_escape(a[0]) + toml_escaped(a.drop_first()),
    decreases a.len(),
{
    if a.len() == 1 {
        assert(a.drop_first() =~= Seq::<char>::empty());
        assert(a.drop_last() =~= Seq::<char>::empty());
        assert(toml_escaped(a.drop_last()) =~= Seq::<char>::empty());
        assert(toml_escaped(a) =~= toml_escape(a[0]));
    } else {
        lemma_escape_front(a.drop_last());
        assert(a.drop_last().drop_first() =~= a.drop_first().drop_last());
        assert(a.drop_first().last() == a.last());
        assert(toml_escaped(a) =~= toml_escape(a[0]) + toml_escaped(a.drop_first()));
    }
}

/// No raw control character in `t`.
pub open spec fn no_controls(t: Seq<char>) -> bool {
    forall|i: int| 0 <= i < t.len() ==> !is_control(#[trigger] t[i])
}

/// Escaping law: the body of `toml_string(s)` holds no raw control
/// character (which a TOML basic string may not), and unescaping it gives
/// `s` back, so no model name can be mistaken for another.
pub proof fn law_toml_string_lossless(s: Seq<char>)
    ensures
        toml_unescape(toml_escaped(s)) == s,
        no_controls(toml_escaped(s)),
        toml_string_spec(s) == seq!['"'] + toml_escaped(s) + seq!['"'],
    decreases s.len(),
{
    if s.len() > 0 {
        law_toml_string_lossless(s.drop_last());
        let c = s.last();
        let e = toml_escape(c);
        if is_control(c) && c != '\n' && c != '\r' && c != '\t' {
            let v = c as u32;
            assert((v / 16) < 8);
            assert(!is_control(hex_digit(v / 16)));
            assert(!is_control(hex_digit(v % 16)));
        }
        assert(no_controls(e));
        assert forall|i: int| 0 <= i < toml_escaped(s).len() implies !is_control(#[trigger] toml_escaped(s)[i]) by {
            let p = toml_escaped(s.drop_last());
            if i < p.len() {
                assert(toml_escaped(s)[i] == p[i]);
            } else {
                assert(toml_escaped(s)[i] == e[i - p.len()]);
            }
        }
        lemma_unescape_append(s.drop_last(), s.last());
        assert(s.drop_last().push(s.last()) =~= s);
    } else {
        assert(toml_escaped(s) =~= Seq::<char>::empty());
    }
}

} // verus!
