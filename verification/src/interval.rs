//! Human-friendly interval parsing for `/loop`: "30s", "5m", "1h", "90m".
//! Intervals are whole seconds.
use vstd::prelude::*;

use crate::text::{
    all_digits, decimal, digit_char, digits_value, is_ws, trim_end, trim_start, extend, extend_str, from_chars, is_ascii_digit,
    parse_unsigned, parse_unsigned_exec, push_decimal, slice_to_vec, to_chars, trim, trim_exec,
};

verus! {

/// Shortest interval accepted, in seconds.
pub const MIN_SECS: u64 = 5;

/// Number of leading ASCII digits of `s`.
pub open spec fn digit_run(s: Seq<char>) -> nat
    decreases s.len(),
{
    if s.len() > 0 && is_ascii_digit(s[0]) {
        1 + digit_run(s.drop_first())
    } else {
        0
    }
}

/// Seconds per unit for a (trimmed) unit word, if it is one.
pub open spec fn unit_factor(u: Seq<char>) -> Option<nat> {
    if u == "s"@ || u == "sec"@ || u == "secs"@ {
        Some(1)
    } else if u == "m"@ || u == "min"@ || u == "mins"@ {
        Some(60)
    } else if u == "h"@ || u == "hr"@ || u == "hrs"@ {
        Some(3600)
    } else {
        None
    }
}

/// The outcome of parsing `s`: seconds, or the message explaining why not.
pub open spec fn interval_result(s: Seq<char>) -> Result<nat, Seq<char>> {
    let t = trim(s);
    let k = digit_run(t) as int;
    let digits = t.take(k);
    let unit = t.skip(k);
    match parse_unsigned(digits, u64::MAX as nat) {
        None => Err("bad interval `"@ + t + "` — use forms like 30s, 5m, 1h"@),
        Some(v) => if v == 0 {
            Err("interval must be positive"@)
        } else {
            match unit_factor(trim(unit)) {
                None => Err("bad interval unit `"@ + unit + "` — use s, m, or h"@),
                Some(f) => if v * f < MIN_SECS {
                    Err("interval too short — minimum 5s"@)
                } else {
                    Ok(v * f)
                },
            }
        },
    }
}

/// Whether multiplying the number by its unit would leave `u64`.
pub open spec fn interval_overflows(s: Seq<char>) -> bool {
    let t = trim(s);
    let k = digit_run(t) as int;
    match (parse_unsigned(t.take(k), u64::MAX as nat), unit_factor(trim(t.skip(k)))) {
        (Some(v), Some(f)) => v * f > u64::MAX,
        _ => false,
    }
}

proof fn lemma_digit_run(s: Seq<char>)
    ensures
        digit_run(s) <= s.len(),
        forall|i: int| 0 <= i < digit_run(s) ==> is_ascii_digit(#[trigger] s[i]),
        digit_run(s) < s.len() ==> !is_ascii_digit(s[digit_run(s) as int]),
    decreases s.len(),
{
    if s.len() > 0 && is_ascii_digit(s[0]) {
        lemma_digit_run(s.drop_first());
        assert forall|i: int| 0 <= i < digit_run(s) implies is_ascii_digit(#[trigger] s[i]) by {
            if i > 0 {
                assert(s[i] == s.drop_first()[i - 1]);
            }
        }
    }
}

fn digit_run_exec(s: &[char]) -> (k: usize)
    ensures
        k == digit_run(s@),
        k <= s@.len(),
{
    proof {
        lemma_digit_run(s@);
    }
    let mut k: usize = 0;
    while k < s.len() && '0' <= s[k] && s[k] <= '9'
        invariant
            k <= digit_run(s@),
            digit_run(s@) <= s@.len(),
            forall|i: int| 0 <= i < digit_run(s@) ==> is_ascii_digit(#[trigger] s@[i]),
            digit_run(s@) < s@.len() ==> !is_ascii_digit(s@[digit_run(s@) as int]),
        decreases s@.len() - k,
    {
        k = k + 1;
    }
    k
}

fn is_word(u: &[char], w: &str) -> (r: bool)
    ensures
        r == (u@ == w@),
{
    let wc = to_chars(w);
    crate::text::chars_eq(u, wc.as_slice())
}

fn unit_factor_exec(u: &[char]) -> (r: Option<u64>)
    ensures
        match r {
            Some(f) => unit_factor(u@) == Some(f as nat),
            None => unit_factor(u@) is None,
        },
{
    if is_word(u, "s") || is_word(u, "sec") || is_word(u, "secs") {
        Some(1)
    } else if is_word(u, "m") || is_word(u, "min") || is_word(u, "mins") {
        Some(60)
    } else if is_word(u, "h") || is_word(u, "hr") || is_word(u, "hrs") {
        Some(3600)
    } else {
        None
    }
}

/// Parse an interval like "30s", "5m" or "1h" into seconds. Units: s, sec,
/// secs, m, min, mins, h, hr, hrs; the number must be positive and the
/// interval at least `MIN_SECS` seconds.
pub fn parse(s: &str) -> (r: Result<u64, String>)
    requires
        !interval_overflows(s@),
    ensures
        match r {
            Ok(v) => interval_result(s@) == Ok::<nat, Seq<char>>(v as nat),
            Err(e) => interval_result(s@) == Err::<nat, Seq<char>>(e@),
        },
{
    let all = to_chars(s);
    let t = trim_exec(all.as_slice());
    let k = digit_run_exec(t.as_slice());
    let digits = slice_to_vec(t.as_slice(), 0, k);
    let unit = slice_to_vec(t.as_slice(), k, t.len());
    assert(digits@ =~= t@.take(k as int));
    assert(unit@ =~= t@.skip(k as int));
    let value = match parse_unsigned_exec(digits.as_slice(), u64::MAX) {
        None => {
            let mut m: Vec<char> = Vec::new();
            extend_str(&mut m, "bad interval `");
            extend(&mut m, t.as_slice());
            extend_str(&mut m, "` — use forms like 30s, 5m, 1h");
            return Err(from_chars(m.as_slice()));
        },
        Some(v) => v,
    };
    if value == 0 {
        return Err(crate::text::own("interval must be positive"));
    }
    let ut = trim_exec(unit.as_slice());
    let factor = match unit_factor_exec(ut.as_slice()) {
        None => {
            let mut m: Vec<char> = Vec::new();
            extend_str(&mut m, "bad interval unit `");
            extend(&mut m, unit.as_slice());
            extend_str(&mut m, "` — use s, m, or h");
            return Err(from_chars(m.as_slice()));
        },
        Some(f) => f,
    };
    let seconds = value * factor;
    if seconds < MIN_SECS {
        return Err(crate::text::own("interval too short — minimum 5s"));
    }
    Ok(seconds)
}

/// The compact text for an interval of `secs` seconds.
pub open spec fn display_text(secs: nat) -> Seq<char> {
    if secs % 3600 == 0 {
        decimal(secs / 3600) + "h"@
    } else if secs % 60 == 0 {
        decimal(secs / 60) + "m"@
    } else {
        decimal(secs) + "s"@
    }
}

/// Compact display: 300 seconds -> "5m", 3600 -> "1h", 45 -> "45s".
pub fn display(secs: u64) -> (r: String)
    ensures
        r@ == display_text(secs as nat),
{
    let mut v: Vec<char> = Vec::new();
    if secs % 3600 == 0 {
        push_decimal(&mut v, secs / 3600);
        extend_str(&mut v, "h");
    } else if secs % 60 == 0 {
        push_decimal(&mut v, secs / 60);
        extend_str(&mut v, "m");
    } else {
        push_decimal(&mut v, secs);
        extend_str(&mut v, "s");
    }
    from_chars(v.as_slice())
}


/// The digits of `n` are ASCII digits that read back as `n`.
proof fn lemma_decimal_reads_back(n: nat)
    ensures
        decimal(n).len() > 0,
        all_digits(decimal(n)),
        digits_value(decimal(n)) == n,
    decreases n,
{
    let c = digit_char(n % 10);
    assert((c as u32) == 48 + n % 10);
    assert(is_ascii_digit(c));
    if n < 10 {
        assert(decimal(n) =~= seq![c]);
        assert(decimal(n).drop_last() =~= Seq::<char>::empty());
        assert(n % 10 == n);
        assert(('0' as u32) == 48);
        assert(digits_value(decimal(n)) == digits_value(Seq::<char>::empty()) * 10 + ((c as u32) - ('0' as u32)) as nat);
    } else {
        lemma_decimal_reads_back(n / 10);
        let d = decimal(n / 10);
        let s = d.push(c);
        assert(s.drop_last() =~= d);
        assert((n / 10) * 10 + n % 10 == n) by (nonlinear_arith);
        assert(('0' as u32) == 48);
        assert(s.last() == c);
        assert(digits_value(s) == digits_value(d) * 10 + ((c as u32) - ('0' as u32)) as nat);
        assert forall|i: int| 0 <= i < s.len() implies is_ascii_digit(#[trigger] s[i]) by {
            if i < d.len() {
                assert(s[i] == d[i]);
            }
        }
    }
}

/// The digit run of digits followed by a non-digit is the digits.
proof fn lemma_digit_run_of(d: Seq<char>, u: Seq<char>)
    requires
        all_digits(d),
        u.len() > 0,
        !is_ascii_digit(u[0]),
    ensures
        digit_run(d + u) == d.len(),
        (d + u).take(d.len() as int) == d,
        (d + u).skip(d.len() as int) == u,
    decreases d.len(),
{
    assert((d + u).take(d.len() as int) =~= d);
    assert((d + u).skip(d.len() as int) =~= u);
    if d.len() == 0 {
        assert(d + u =~= u);
    } else {
        let t = d.drop_first();
        assert forall|i: int| 0 <= i < t.len() implies is_ascii_digit(#[trigger] t[i]) by {
            assert(t[i] == d[i + 1]);
        }
        lemma_digit_run_of(t, u);
        assert((d + u).drop_first() =~= t + u);
        assert((d + u)[0] == d[0]);
    }
}

/// A text that starts with a digit and ends with a letter is its own trim.
proof fn lemma_trim_number_unit(d: Seq<char>, u: Seq<char>)
    requires
        d.len() > 0,
        is_ascii_digit(d[0]),
        u.len() >= 1,
        !is_ws(u.last()),
    ensures
        trim(d + u) == d + u,
{
    let t = d + u;
    assert(t[0] == d[0]);
    assert(!is_ws(t[0]));
    assert(trim_start(t) == t);
    assert(t.last() == u.last());
    assert(trim_end(t) == t);
}

/// A unit word is its own trim when it starts and ends with a letter.
proof fn lemma_trim_word(u: Seq<char>)
    requires
        u.len() >= 1,
        !is_ws(u[0]),
        !is_ws(u.last()),
    ensures
        trim(u) == u,
{
    assert(trim_start(u) == u);
    assert(trim_end(u) == u);
}

/// Every unit word means what it says: a positive count followed by `s`,
/// `sec` or `secs` is that many seconds, by `m`, `min` or `mins` that many
/// minutes, by `h`, `hr` or `hrs` that many hours, provided the interval
/// is at least the minimum; and such a text never overflows when the
/// seconds fit in a `u64`.
pub proof fn law_unit_words(n: nat, u: Seq<char>, secs_per_unit: nat)
    requires
        1 <= n <= u64::MAX,
        ((u == "s"@ || u == "sec"@ || u == "secs"@) && secs_per_unit == 1)
            || ((u == "m"@ || u == "min"@ || u == "mins"@) && secs_per_unit == 60)
            || ((u == "h"@ || u == "hr"@ || u == "hrs"@) && secs_per_unit == 3600),
        n * secs_per_unit >= MIN_SECS,
    ensures
        interval_result(decimal(n) + u) == Ok::<nat, Seq<char>>(n * secs_per_unit),
        n * secs_per_unit <= u64::MAX ==> !interval_overflows(decimal(n) + u),
{
    reveal_strlit("s");
    reveal_strlit("sec");
    reveal_strlit("secs");
    reveal_strlit("m");
    reveal_strlit("min");
    reveal_strlit("mins");
    reveal_strlit("h");
    reveal_strlit("hr");
    reveal_strlit("hrs");
    lemma_decimal_reads_back(n);
    let d = decimal(n);
    assert(is_ascii_digit(d[0]));
    assert(u.len() >= 1 && !is_ascii_digit(u[0]) && !is_ws(u[0]) && !is_ws(u.last()));
    lemma_digit_run_of(d, u);
    lemma_trim_number_unit(d, u);
    lemma_trim_word(u);
    assert(d[0] != '+');
    assert(parse_unsigned(d, u64::MAX as nat) == Some(n));
    assert(unit_factor(u) == Some(secs_per_unit));
}

/// Display and parse agree: the compact text of an interval of at least
/// the minimum parses back to the same number of seconds, and whatever
/// parses is at least the minimum. The compact text never overflows, so
/// `parse` accepts it.
pub proof fn law_display_parses_back(secs: u64, s: Seq<char>)
    requires
        secs >= MIN_SECS,
    ensures
        interval_result(display_text(secs as nat)) == Ok::<nat, Seq<char>>(secs as nat),
        !interval_overflows(display_text(secs as nat)),
        interval_result(s) matches Ok(d) ==> d >= MIN_SECS,
{
    let n = secs as nat;
    reveal_strlit("s");
    reveal_strlit("sec");
    reveal_strlit("secs");
    reveal_strlit("m");
    reveal_strlit("min");
    reveal_strlit("mins");
    reveal_strlit("h");
    reveal_strlit("hr");
    reveal_strlit("hrs");
    let (v, unit, f): (nat, Seq<char>, nat) = if n % 3600 == 0 {
        (n / 3600, "h"@, 3600)
    } else if n % 60 == 0 {
        (n / 60, "m"@, 60)
    } else {
        (n, "s"@, 1)
    };
    assert(display_text(n) == decimal(v) + unit);
    assert(v * f == n);
    assert(v >= 1);
    lemma_decimal_reads_back(v);
    let d = decimal(v);
    assert(is_ascii_digit(d[0]));
    assert(!is_ascii_digit(unit[0]));
    lemma_digit_run_of(d, unit);
    lemma_trim_number_unit(d, unit);
    let t = d + unit;
    assert(d[0] != '+');
    assert(parse_unsigned(d, u64::MAX as nat) == Some(v));
    assert(trim(unit) == unit) by {
        assert(trim_start(unit) == unit);
        assert(trim_end(unit) == unit);
    }
    assert(unit_factor(unit) == Some(f));
}

} // verus!
