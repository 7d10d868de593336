//! Text as sequences of characters: the vocabulary every other module's
//! contracts are written in (UTF-8 byte lengths, whitespace trimming, line
//! splitting), and the executable helpers that compute it.
use vstd::prelude::*;

verus! {

// ---------------------------------------------------------------------------
// Characters
// ---------------------------------------------------------------------------

/// Number of bytes `c` takes in UTF-8.
pub open spec fn char_width(c: char) -> nat {
    if (c as u32) < 0x80 {
        1
    } else if (c as u32) < 0x800 {
        2
    } else if (c as u32) < 0x10000 {
        3
    } else {
        4
    }
}

/// Number of bytes the UTF-8 encoding of `s` takes.
pub open spec fn byte_len(s: Seq<char>) -> nat
    decreases s.len(),
{
    if s.len() == 0 {
        0
    } else {
        byte_len(s.drop_last()) + char_width(s.last())
    }
}

/// Unicode `White_Space` (what `char::is_whitespace` tests).
pub open spec fn is_ws(c: char) -> bool {
    let u = c as u32;
    (0x09 <= u && u <= 0x0D) || u == 0x20 || u == 0x85 || u == 0xA0 || u == 0x1680 || (0x2000 <= u
        && u <= 0x200A) || u == 0x2028 || u == 0x2029 || u == 0x202F || u == 0x205F || u == 0x3000
}

/// General category `Cc` (what `char::is_control` tests).
pub open spec fn is_control(c: char) -> bool {
    let u = c as u32;
    u <= 0x1F || (0x7F <= u && u <= 0x9F)
}

pub open spec fn is_ascii_digit(c: char) -> bool {
    '0' <= c && c <= '9'
}

pub open spec fn is_ascii_lower(c: char) -> bool {
    'a' <= c && c <= 'z'
}

pub open spec fn is_ascii_upper(c: char) -> bool {
    'A' <= c && c <= 'Z'
}

/// ASCII lower-casing of one character; other characters are unchanged.
pub open spec fn lower_char(c: char) -> char {
    if is_ascii_upper(c) {
        ((c as u32) + 32) as char
    } else {
        c
    }
}

/// ASCII upper-casing of one character; other characters are unchanged.
pub open spec fn upper_char(c: char) -> char {
    if is_ascii_lower(c) {
        ((c as u32) - 32) as char
    } else {
        c
    }
}

pub open spec fn lower(s: Seq<char>) -> Seq<char> {
    s.map_values(|c: char| lower_char(c))
}

pub open spec fn upper(s: Seq<char>) -> Seq<char> {
    s.map_values(|c: char| upper_char(c))
}

/// Equality up to ASCII case (`str::eq_ignore_ascii_case`).
pub open spec fn eq_ignore_case(a: Seq<char>, b: Seq<char>) -> bool {
    lower(a) == lower(b)
}

pub fn char_width_exec(c: char) -> (w: usize)
    ensures
        w == char_width(c),
{
    let u = c as u32;
    if u < 0x80 {
        1
    } else if u < 0x800 {
        2
    } else if u < 0x10000 {
        3
    } else {
        4
    }
}

pub fn is_ws_exec(c: char) -> (b: bool)
    ensures
        b == is_ws(c),
{
    let u = c as u32;
    (0x09 <= u && u <= 0x0D) || u == 0x20 || u == 0x85 || u == 0xA0 || u == 0x1680 || (0x2000 <= u
        && u <= 0x200A) || u == 0x2028 || u == 0x2029 || u == 0x202F || u == 0x205F || u == 0x3000
}

pub fn is_control_exec(c: char) -> (b: bool)
    ensures
        b == is_control(c),
{
    let u = c as u32;
    u <= 0x1F || (0x7F <= u && u <= 0x9F)
}

pub fn lower_char_exec(c: char) -> (r: char)
    ensures
        r == lower_char(c),
{
    if 'A' <= c && c <= 'Z' {
        let u = (c as u32) + 32;
        assert(u <= 0x7A);
        char_from_ascii(u)
    } else {
        c
    }
}

pub fn upper_char_exec(c: char) -> (r: char)
    ensures
        r == upper_char(c),
{
    if 'a' <= c && c <= 'z' {
        let u = (c as u32) - 32;
        char_from_ascii(u)
    } else {
        c
    }
}

/// The character with ASCII code `u`.
fn char_from_ascii(u: u32) -> (c: char)
    requires
        u < 0x80,
    ensures
        c == u as char,
        c as u32 == u,
{
    let b = u as u8;
    let c = b as char;
    c
}

// ---------------------------------------------------------------------------
// Byte lengths
// ---------------------------------------------------------------------------

pub proof fn lemma_byte_len_take_step(s: Seq<char>, i: int)
    requires
        0 <= i < s.len(),
    ensures
        byte_len(s.take(i + 1)) == byte_len(s.take(i)) + char_width(s[i]),
{
    assert(s.take(i + 1).drop_last() =~= s.take(i));
}

pub proof fn lemma_byte_len_concat(a: Seq<char>, b: Seq<char>)
    ensures
        byte_len(a + b) == byte_len(a) + byte_len(b),
    decreases b.len(),
{
    if b.len() == 0 {
        assert(a + b =~= a);
    } else {
        assert((a + b).drop_last() =~= a + b.drop_last());
        lemma_byte_len_concat(a, b.drop_last());
    }
}

pub proof fn lemma_byte_len_ge_len(s: Seq<char>)
    ensures
        byte_len(s) >= s.len(),
        byte_len(s) <= 4 * s.len(),
    decreases s.len(),
{
    if s.len() > 0 {
        lemma_byte_len_ge_len(s.drop_last());
    }
}

pub proof fn lemma_byte_len_take_mono(s: Seq<char>, i: int, j: int)
    requires
        0 <= i <= j <= s.len(),
    ensures
        byte_len(s.take(i)) <= byte_len(s.take(j)),
    decreases j - i,
{
    if i < j {
        lemma_byte_len_take_step(s, j - 1);
        lemma_byte_len_take_mono(s, i, j - 1);
    }
}

/// UTF-8 byte length of `s`.
pub fn byte_len_exec(s: &[char]) -> (n: usize)
    requires
        4 * s@.len() <= usize::MAX,
    ensures
        n == byte_len(s@),
{
    let mut n: usize = 0;
    let mut i: usize = 0;
    while i < s.len()
        invariant
            i <= s@.len(),
            4 * s@.len() <= usize::MAX,
            n == byte_len(s@.take(i as int)),
            n <= 4 * i,
        decreases s@.len() - i,
    {
        proof {
            lemma_byte_len_take_step(s@, i as int);
        }
        n = n + char_width_exec(s[i]);
        i = i + 1;
    }
    assert(s@.take(s@.len() as int) =~= s@);
    n
}


/// Byte length of `s` when it is known to fit in `cap` bytes.
pub fn byte_len_exec_small(s: &[char], cap: usize) -> (n: usize)
    requires
        byte_len(s@) <= cap,
    ensures
        n == byte_len(s@),
{
    let mut n: usize = 0;
    let mut i: usize = 0;
    while i < s.len()
        invariant
            i <= s@.len(),
            byte_len(s@) <= cap,
            n == byte_len(s@.take(i as int)),
        decreases s@.len() - i,
    {
        proof {
            lemma_byte_len_take_step(s@, i as int);
            lemma_byte_len_take_mono(s@, i + 1, s@.len() as int);
            assert(s@.take(s@.len() as int) =~= s@);
        }
        n = n + char_width_exec(s[i]);
        i = i + 1;
    }
    assert(s@.take(s@.len() as int) =~= s@);
    n
}

/// `k` is the number of leading characters of `s` that fit in `cap` bytes:
/// the longest prefix, cut on a character boundary, of at most `cap` bytes.
pub open spec fn is_byte_prefix_len(s: Seq<char>, cap: nat, k: nat) -> bool {
    &&& k <= s.len()
    &&& byte_len(s.take(k as int)) <= cap
    &&& (k < s.len() ==> byte_len(s.take(k + 1 as int)) > cap)
}

/// Length of the longest prefix of `s` that fits in `cap` UTF-8 bytes.
pub fn byte_prefix_len(s: &[char], cap: usize) -> (k: usize)
    ensures
        is_byte_prefix_len(s@, cap as nat, k as nat),
{
    let mut k: usize = 0;
    let mut n: usize = 0;
    while k < s.len()
        invariant
            k <= s@.len(),
            n == byte_len(s@.take(k as int)),
            n <= cap,
        decreases s@.len() - k,
    {
        let w = char_width_exec(s[k]);
        proof {
            lemma_byte_len_take_step(s@, k as int);
        }
        if w > cap - n {
            return k;
        }
        n = n + w;
        k = k + 1;
    }
    assert(s@.take(k as int) =~= s@);
    k
}

pub proof fn lemma_byte_prefix_len_unique(s: Seq<char>, cap: nat, k1: nat, k2: nat)
    requires
        is_byte_prefix_len(s, cap, k1),
        is_byte_prefix_len(s, cap, k2),
    ensures
        k1 == k2,
{
    if k1 < k2 {
        lemma_byte_len_take_mono(s, k1 + 1 as int, k2 as int);
    } else if k2 < k1 {
        lemma_byte_len_take_mono(s, k2 + 1 as int, k1 as int);
    }
}

// ---------------------------------------------------------------------------
// Trimming
// ---------------------------------------------------------------------------

pub open spec fn trim_end(s: Seq<char>) -> Seq<char>
    decreases s.len(),
{
    if s.len() > 0 && is_ws(s.last()) {
        trim_end(s.drop_last())
    } else {
        s
    }
}

pub open spec fn trim_start(s: Seq<char>) -> Seq<char>
    decreases s.len(),
{
    if s.len() > 0 && is_ws(s[0]) {
        trim_start(s.drop_first())
    } else {
        s
    }
}

/// `str::trim`: leading and trailing whitespace removed.
pub open spec fn trim(s: Seq<char>) -> Seq<char> {
    trim_end(trim_start(s))
}

/// Number of leading whitespace characters.
pub open spec fn lead_ws(s: Seq<char>) -> nat
    decreases s.len(),
{
    if s.len() > 0 && is_ws(s[0]) {
        1 + lead_ws(s.drop_first())
    } else {
        0
    }
}

/// Number of characters left once trailing whitespace is dropped.
pub open spec fn end_ws_cut(s: Seq<char>) -> nat
    decreases s.len(),
{
    if s.len() > 0 && is_ws(s.last()) {
        end_ws_cut(s.drop_last())
    } else {
        s.len()
    }
}

pub proof fn lemma_trim_start_skip(s: Seq<char>)
    ensures
        lead_ws(s) <= s.len(),
        trim_start(s) == s.skip(lead_ws(s) as int),
        forall|i: int| 0 <= i < lead_ws(s) ==> is_ws(#[trigger] s[i]),
        lead_ws(s) < s.len() ==> !is_ws(s[lead_ws(s) as int]),
    decreases s.len(),
{
    if s.len() > 0 && is_ws(s[0]) {
        lemma_trim_start_skip(s.drop_first());
        assert(s.drop_first().skip(lead_ws(s.drop_first()) as int) =~= s.skip(lead_ws(s) as int));
        assert forall|i: int| 0 <= i < lead_ws(s) implies is_ws(#[trigger] s[i]) by {
            if i > 0 {
                assert(s[i] == s.drop_first()[i - 1]);
            }
        }
    } else {
        assert(s.skip(0) =~= s);
    }
}

pub proof fn lemma_trim_end_take(s: Seq<char>)
    ensures
        end_ws_cut(s) <= s.len(),
        trim_end(s) == s.take(end_ws_cut(s) as int),
        forall|i: int| end_ws_cut(s) <= i < s.len() ==> is_ws(#[trigger] s[i]),
        end_ws_cut(s) > 0 ==> !is_ws(s[end_ws_cut(s) - 1]),
    decreases s.len(),
{
    if s.len() > 0 && is_ws(s.last()) {
        lemma_trim_end_take(s.drop_last());
        assert(s.drop_last().take(end_ws_cut(s.drop_last()) as int) =~= s.take(
            end_ws_cut(s) as int,
        ));
        assert forall|i: int| end_ws_cut(s) <= i < s.len() implies is_ws(#[trigger] s[i]) by {
            if i < s.len() - 1 {
                assert(s[i] == s.drop_last()[i]);
            }
        }
    } else {
        assert(s.take(s.len() as int) =~= s);
    }
}

/// Index of the first non-whitespace character (or the length).
pub fn lead_ws_exec(s: &[char]) -> (k: usize)
    ensures
        k == lead_ws(s@),
{
    proof {
        lemma_trim_start_skip(s@);
    }
    let mut k: usize = 0;
    while k < s.len() && is_ws_exec(s[k])
        invariant
            k <= s@.len(),
            lead_ws(s@) <= s@.len(),
            k <= lead_ws(s@),
            forall|i: int| 0 <= i < lead_ws(s@) ==> is_ws(#[trigger] s@[i]),
            lead_ws(s@) < s@.len() ==> !is_ws(s@[lead_ws(s@) as int]),
        decreases s@.len() - k,
    {
        k = k + 1;
    }
    k
}

/// Length left once trailing whitespace is dropped.
pub fn end_ws_cut_exec(s: &[char]) -> (k: usize)
    ensures
        k == end_ws_cut(s@),
{
    proof {
        lemma_trim_end_take(s@);
    }
    let mut k: usize = s.len();
    while k > 0 && is_ws_exec(s[k - 1])
        invariant
            k <= s@.len(),
            end_ws_cut(s@) <= k,
            forall|i: int| end_ws_cut(s@) <= i < s@.len() ==> is_ws(#[trigger] s@[i]),
            end_ws_cut(s@) > 0 ==> !is_ws(s@[end_ws_cut(s@) - 1]),
        decreases k,
    {
        k = k - 1;
    }
    k
}

/// `s` with trailing whitespace removed.
pub fn trim_end_exec(s: &[char]) -> (r: Vec<char>)
    ensures
        r@ == trim_end(s@),
{
    proof {
        lemma_trim_end_take(s@);
    }
    let k = end_ws_cut_exec(s);
    slice_to_vec(s, 0, k)
}

/// `s` with leading whitespace removed.
pub fn trim_start_exec(s: &[char]) -> (r: Vec<char>)
    ensures
        r@ == trim_start(s@),
{
    proof {
        lemma_trim_start_skip(s@);
    }
    let k = lead_ws_exec(s);
    slice_to_vec(s, k, s.len())
}

/// `s` with leading and trailing whitespace removed.
pub fn trim_exec(s: &[char]) -> (r: Vec<char>)
    ensures
        r@ == trim(s@),
{
    let a = trim_start_exec(s);
    trim_end_exec(a.as_slice())
}

/// Number of leading non-whitespace characters.
pub open spec fn word_len(s: Seq<char>) -> nat
    decreases s.len(),
{
    if s.len() > 0 && !is_ws(s[0]) {
        1 + word_len(s.drop_first())
    } else {
        0
    }
}

/// The leading run of non-whitespace characters (the first word of an
/// already trimmed `s`).
pub open spec fn first_word(s: Seq<char>) -> Seq<char> {
    s.take(word_len(s) as int)
}

pub proof fn lemma_word_len(s: Seq<char>)
    ensures
        word_len(s) <= s.len(),
        forall|i: int| 0 <= i < word_len(s) ==> !is_ws(#[trigger] s[i]),
        word_len(s) < s.len() ==> is_ws(s[word_len(s) as int]),
    decreases s.len(),
{
    if s.len() > 0 && !is_ws(s[0]) {
        lemma_word_len(s.drop_first());
        assert forall|i: int| 0 <= i < word_len(s) implies !is_ws(#[trigger] s[i]) by {
            if i > 0 {
                assert(s[i] == s.drop_first()[i - 1]);
            }
        }
    }
}

/// Length of the first run of non-whitespace characters of `s`.
pub fn word_len_exec(s: &[char]) -> (k: usize)
    ensures
        k as nat == word_len(s@),
{
    proof {
        lemma_word_len(s@);
    }
    let mut k: usize = 0;
    while k < s.len() && !is_ws_exec(s[k])
        invariant
            k <= word_len(s@),
            word_len(s@) <= s@.len(),
            forall|i: int| 0 <= i < word_len(s@) ==> !is_ws(#[trigger] s@[i]),
            word_len(s@) < s@.len() ==> is_ws(s@[word_len(s@) as int]),
        decreases s@.len() - k,
    {
        k = k + 1;
    }
    k
}

/// The leading run of non-whitespace characters of `s`.
pub fn first_word_exec(s: &[char]) -> (r: Vec<char>)
    ensures
        r@ == first_word(s@),
{
    proof {
        lemma_word_len(s@);
    }
    let k = word_len_exec(s);
    slice_to_vec(s, 0, k)
}


// ---------------------------------------------------------------------------
// Slices, strings
// ---------------------------------------------------------------------------

/// Copy of `s[from..to]`.
pub fn slice_to_vec(s: &[char], from: usize, to: usize) -> (r: Vec<char>)
    requires
        from <= to <= s@.len(),
    ensures
        r@ == s@.subrange(from as int, to as int),
{
    let mut r: Vec<char> = Vec::new();
    let mut i = from;
    while i < to
        invariant
            from <= i <= to <= s@.len(),
            r@ == s@.subrange(from as int, i as int),
        decreases to - i,
    {
        r.push(s[i]);
        i = i + 1;
    }
    r
}


/// The first `n` bytes of `b`.
pub fn bytes_prefix(b: &[u8], n: usize) -> (r: Vec<u8>)
    requires
        n <= b@.len(),
    ensures
        r@ == b@.take(n as int),
{
    bytes_range(b, 0, n)
}

/// The bytes `b[from..to]`.
pub fn bytes_range(b: &[u8], from: usize, to: usize) -> (r: Vec<u8>)
    requires
        from <= to <= b@.len(),
    ensures
        r@ == b@.subrange(from as int, to as int),
{
    let mut r: Vec<u8> = Vec::new();
    let mut i = from;
    while i < to
        invariant
            from <= i <= to <= b@.len(),
            r@ == b@.subrange(from as int, i as int),
        decreases to - i,
    {
        r.push(b[i]);
        i = i + 1;
    }
    r
}

/// Append all of `t` to `v`.
pub fn extend(v: &mut Vec<char>, t: &[char])
    ensures
        final(v)@ == old(v)@ + t@,
{
    let mut i: usize = 0;
    while i < t.len()
        invariant
            i <= t@.len(),
            v@ == old(v)@ + t@.take(i as int),
        decreases t@.len() - i,
    {
        v.push(t[i]);
        i = i + 1;
    }
    assert(t@.take(t@.len() as int) =~= t@);
}

/// Append the characters of `t` to `v`.
pub fn extend_str(v: &mut Vec<char>, t: &str)
    ensures
        final(v)@ == old(v)@ + t@,
{
    let c = to_chars(t);
    extend(v, c.as_slice());
}

/// The characters of `s`, in order.
pub fn to_chars(s: &str) -> (v: Vec<char>)
    ensures
        v@ == s@,
{
    let mut v: Vec<char> = Vec::new();
    for c in it: s.chars()
        invariant
            v@ == it.seq().take(it.index()),
    {
        v.push(c);
    }
    v
}

/// `String::push`: append one character.
#[verifier::external_body]
pub fn push_char(s: &mut String, c: char)
    ensures
        final(s)@ == old(s)@.push(c),
{
    s.push(c);
}

/// The string made of the characters `v`.
pub fn from_chars(v: &[char]) -> (s: String)
    ensures
        s@ == v@,
{
    let mut s = String::new();
    let mut i: usize = 0;
    while i < v.len()
        invariant
            i <= v@.len(),
            s@ == v@.take(i as int),
        decreases v@.len() - i,
    {
        push_char(&mut s, v[i]);
        assert(v@.take(i + 1) =~= v@.take(i as int).push(v@[i as int]));
        i = i + 1;
    }
    assert(v@.take(v@.len() as int) =~= v@);
    s
}

/// Owned copy of `s`.
pub fn own(s: &str) -> (r: String)
    ensures
        r@ == s@,
{
    s.to_owned()
}

/// `a` followed by `b`.
pub fn cat(a: &str, b: &str) -> (r: String)
    ensures
        r@ == a@ + b@,
{
    let mut r = a.to_owned();
    r.append(b);
    r
}

pub fn chars_eq(a: &[char], b: &[char]) -> (r: bool)
    ensures
        r == (a@ == b@),
{
    if a.len() != b.len() {
        return false;
    }
    let mut i: usize = 0;
    while i < a.len()
        invariant
            a@.len() == b@.len(),
            i <= a@.len(),
            forall|j: int| 0 <= j < i ==> a@[j] == b@[j],
        decreases a@.len() - i,
    {
        if a[i] != b[i] {
            return false;
        }
        i = i + 1;
    }
    assert(a@ =~= b@);
    true
}

pub fn str_eq(a: &str, b: &str) -> (r: bool)
    ensures
        r == (a@ == b@),
{
    let x = to_chars(a);
    let y = to_chars(b);
    chars_eq(x.as_slice(), y.as_slice())
}

// ---------------------------------------------------------------------------
// Splitting and joining
// ---------------------------------------------------------------------------

/// The pieces of `s` between occurrences of `c` (`str::split`); always at
/// least one piece.
pub open spec fn split_on(s: Seq<char>, c: char) -> Seq<Seq<char>>
    decreases s.len(),
{
    if s.len() == 0 {
        seq![Seq::<char>::empty()]
    } else {
        let p = split_on(s.drop_last(), c);
        if s.last() == c {
            p.push(Seq::<char>::empty())
        } else {
            p.update(p.len() - 1, p.last().push(s.last()))
        }
    }
}

pub proof fn lemma_split_on_nonempty(s: Seq<char>, c: char)
    ensures
        split_on(s, c).len() >= 1,
    decreases s.len(),
{
    if s.len() > 0 {
        lemma_split_on_nonempty(s.drop_last(), c);
    }
}

/// A line without its `\r` terminator.
pub open spec fn strip_cr(l: Seq<char>) -> Seq<char> {
    if l.len() > 0 && l.last() == '\r' {
        l.drop_last()
    } else {
        l
    }
}

/// `str::lines`: split at `\n`, drop the `\r` of each `\r\n`, no empty
/// piece after a final `\n`.
pub open spec fn lines(s: Seq<char>) -> Seq<Seq<char>> {
    let p = split_on(s, '\n');
    let body = p.drop_last().map_values(|l: Seq<char>| strip_cr(l));
    if p.last().len() == 0 {
        body
    } else {
        body.push(p.last())
    }
}

/// Join `p` with `sep` between consecutive pieces.
pub open spec fn join(p: Seq<Seq<char>>, sep: Seq<char>) -> Seq<char>
    decreases p.len(),
{
    if p.len() == 0 {
        Seq::empty()
    } else if p.len() == 1 {
        p[0]
    } else {
        join(p.drop_last(), sep) + sep + p.last()
    }
}

/// The views of a vector of character vectors.
pub open spec fn views(v: Seq<Vec<char>>) -> Seq<Seq<char>> {
    v.map_values(|x: Vec<char>| x@)
}

/// `str::split` on one character.
pub fn split_on_exec(s: &[char], c: char) -> (r: Vec<Vec<char>>)
    ensures
        views(r@) == split_on(s@, c),
{
    let mut done: Vec<Vec<char>> = Vec::new();
    let mut cur: Vec<char> = Vec::new();
    let mut i: usize = 0;
    while i < s.len()
        invariant
            i <= s@.len(),
            views(done@).push(cur@) == split_on(s@.take(i as int), c),
        decreases s@.len() - i,
    {
        proof {
            assert(s@.take(i + 1).drop_last() =~= s@.take(i as int));
            assert(s@.take(i + 1).last() == s@[i as int]);
        }
        if s[i] == c {
            let ghost old_done = done@;
            let mut full: Vec<char> = Vec::new();
            std::mem::swap(&mut full, &mut cur);
            done.push(full);
            proof {
                assert(views(done@) =~= views(old_done).push(full@));
            }
        } else {
            cur.push(s[i]);
        }
        i = i + 1;
    }
    let ghost before = done@;
    done.push(cur);
    proof {
        assert(views(done@) =~= views(before).push(cur@));
        assert(s@.take(s@.len() as int) =~= s@);
    }
    done
}

pub fn strip_cr_exec(l: Vec<char>) -> (r: Vec<char>)
    ensures
        r@ == strip_cr(l@),
{
    let mut l = l;
    if l.len() > 0 && l[l.len() - 1] == '\r' {
        l.pop();
    }
    l
}

/// `str::lines`.
pub fn lines_exec(s: &[char]) -> (r: Vec<Vec<char>>)
    ensures
        views(r@) == lines(s@),
{
    let parts = split_on_exec(s, '\n');
    proof {
        lemma_split_on_nonempty(s@, '\n');
    }
    let ghost p = split_on(s@, '\n');
    let n = parts.len();
    let mut r: Vec<Vec<char>> = Vec::new();
    let mut parts = parts;
    let last = parts.pop().unwrap();
    assert(views(parts@) =~= p.drop_last());
    let mut i: usize = 0;
    while i < parts.len()
        invariant
            i <= parts@.len(),
            parts@.len() == n - 1,
            n == p.len(),
            views(parts@) == p.drop_last(),
            views(r@) =~= p.drop_last().take(i as int).map_values(|l: Seq<char>| strip_cr(l)),
        decreases parts@.len() - i,
    {
        let piece = parts[i].clone();
        assert(piece@ == p.drop_last()[i as int]);
        let ghost old_r = r@;
        r.push(strip_cr_exec(piece));
        proof {
            assert(views(r@) =~= views(old_r).push(strip_cr(p.drop_last()[i as int])));
            assert(p.drop_last().take(i + 1).map_values(|l: Seq<char>| strip_cr(l)) =~= p.drop_last().take(
                i as int,
            ).map_values(|l: Seq<char>| strip_cr(l)).push(strip_cr(p.drop_last()[i as int])));
        }
        i = i + 1;
    }
    assert(p.drop_last().take(parts@.len() as int) =~= p.drop_last());
    if last.len() > 0 {
        let ghost old_r = r@;
        r.push(last);
        assert(views(r@) =~= views(old_r).push(p.last()));
    }
    r
}

/// `pieces` joined with `sep`.
pub fn join_exec(pieces: &[Vec<char>], sep: &[char]) -> (r: Vec<char>)
    ensures
        r@ == join(views(pieces@), sep@),
{
    let mut r: Vec<char> = Vec::new();
    let mut i: usize = 0;
    while i < pieces.len()
        invariant
            i <= pieces@.len(),
            r@ == join(views(pieces@).take(i as int), sep@),
        decreases pieces@.len() - i,
    {
        let ghost vp = views(pieces@);
        proof {
            assert(vp.take(i + 1).drop_last() =~= vp.take(i as int));
        }
        if i > 0 {
            extend(&mut r, sep);
        }
        extend(&mut r, pieces[i].as_slice());
        proof {
            if i == 0 {
                assert(r@ =~= vp.take(1)[0]);
            }
        }
        i = i + 1;
    }
    assert(views(pieces@).take(pieces@.len() as int) =~= views(pieces@));
    r
}

// ---------------------------------------------------------------------------
// Searching
// ---------------------------------------------------------------------------

/// `t` occurs in `s` at position `i`.
pub open spec fn matches_at(s: Seq<char>, t: Seq<char>, i: int) -> bool {
    0 <= i && i + t.len() <= s.len() && s.subrange(i, i + t.len()) == t
}

/// `str::contains`.
pub open spec fn contains(s: Seq<char>, t: Seq<char>) -> bool {
    exists|i: int| matches_at(s, t, i)
}

/// `t` occurs at `i` and nowhere before.
pub open spec fn is_first_match(s: Seq<char>, t: Seq<char>, i: int) -> bool {
    matches_at(s, t, i) && forall|j: int| 0 <= j < i ==> !matches_at(s, t, j)
}

/// `str::find`: the first position of `t` in `s`.
pub open spec fn find(s: Seq<char>, t: Seq<char>) -> Option<int> {
    if contains(s, t) {
        Some(choose|i: int| is_first_match(s, t, i))
    } else {
        None
    }
}

pub proof fn lemma_find_some(s: Seq<char>, t: Seq<char>, i: int)
    requires
        find(s, t) == Some(i),
    ensures
        is_first_match(s, t, i),
{
    assert(contains(s, t));
    let w = choose|w: int| matches_at(s, t, w);
    lemma_first_exists(s, t, w);
}

/// Below any match there is a first one.
pub proof fn lemma_first_exists(s: Seq<char>, t: Seq<char>, w: int)
    requires
        matches_at(s, t, w),
    ensures
        exists|k: int| is_first_match(s, t, k),
    decreases w,
{
    if forall|j: int| 0 <= j < w ==> !matches_at(s, t, j) {
        assert(is_first_match(s, t, w));
    } else {
        let j = choose|j: int| 0 <= j < w && matches_at(s, t, j);
        lemma_first_exists(s, t, j);
    }
}

pub fn matches_at_exec(s: &[char], t: &[char], i: usize) -> (r: bool)
    ensures
        r == matches_at(s@, t@, i as int),
{
    if i > s.len() || t.len() > s.len() - i {
        return false;
    }
    let mut j: usize = 0;
    while j < t.len()
        invariant
            i + t@.len() <= s@.len(),
            s@.len() <= usize::MAX,
            j <= t@.len(),
            forall|k: int| 0 <= k < j ==> s@[i + k] == t@[k],
        decreases t@.len() - j,
    {
        if s[i + j] != t[j] {
            assert(s@.subrange(i as int, i + t@.len())[j as int] != t@[j as int]);
            return false;
        }
        j = j + 1;
    }
    assert(s@.subrange(i as int, i + t@.len()) =~= t@);
    true
}

/// First position at or after `from` where `t` occurs in `s`.
pub fn find_from(s: &[char], t: &[char], from: usize) -> (r: Option<usize>)
    ensures
        match r {
            Some(i) => from <= i && matches_at(s@, t@, i as int) && forall|j: int|
                from <= j < i ==> !matches_at(s@, t@, j),
            None => forall|j: int| from <= j ==> !matches_at(s@, t@, j),
        },
{
    if from > s.len() {
        return None;
    }
    let mut i = from;
    while i < s.len()
        invariant
            from <= i <= s@.len(),
            forall|j: int| from <= j < i ==> !matches_at(s@, t@, j),
        decreases s@.len() - i,
    {
        if matches_at_exec(s, t, i) {
            return Some(i);
        }
        i = i + 1;
    }
    if matches_at_exec(s, t, i) {
        return Some(i);
    }
    None
}

/// `str::find`.
pub fn find_exec(s: &[char], t: &[char]) -> (r: Option<usize>)
    ensures
        match r {
            Some(i) => find(s@, t@) == Some(i as int) && is_first_match(s@, t@, i as int),
            None => find(s@, t@) is None,
        },
{
    let r = find_from(s, t, 0);
    match r {
        Some(i) => {
            assert(is_first_match(s@, t@, i as int));
            assert(contains(s@, t@));
            let ghost k = choose|k: int| is_first_match(s@, t@, k);
            assert(k == i as int) by {
                if k < i {
                } else if k > i {
                    assert(!matches_at(s@, t@, i as int));
                }
            }
        },
        None => {
            assert(!contains(s@, t@)) by {
                if contains(s@, t@) {
                    let k = choose|k: int| matches_at(s@, t@, k);
                    assert(!matches_at(s@, t@, k));
                }
            }
        },
    }
    r
}

pub fn contains_exec(s: &[char], t: &[char]) -> (r: bool)
    ensures
        r == contains(s@, t@),
{
    match find_from(s, t, 0) {
        Some(_) => true,
        None => {
            assert(!contains(s@, t@)) by {
                if contains(s@, t@) {
                    let k = choose|k: int| matches_at(s@, t@, k);
                    assert(!matches_at(s@, t@, k));
                }
            }
            false
        },
    }
}

pub fn starts_with_exec(s: &[char], t: &[char]) -> (r: bool)
    ensures
        r == t@.is_prefix_of(s@),
        r == matches_at(s@, t@, 0),
{
    let r = matches_at_exec(s, t, 0);
    proof {
        if r {
            assert(s@.subrange(0, t@.len() as int) == t@);
            assert forall|i: int| 0 <= i < t@.len() implies t@[i] == s@[i] by {
                assert(s@.subrange(0, t@.len() as int)[i] == s@[i]);
            }
        }
        if t@.is_prefix_of(s@) {
            assert(s@.subrange(0, t@.len() as int) =~= t@);
        }
    }
    r
}

pub fn ends_with_exec(s: &[char], t: &[char]) -> (r: bool)
    ensures
        r == t@.is_suffix_of(s@),
{
    if t.len() > s.len() {
        return false;
    }
    let r = matches_at_exec(s, t, s.len() - t.len());
    proof {
        let k = s@.len() - t@.len();
        if r {
            assert forall|i: int| 0 <= i < t@.len() implies t@[i] == s@[k + i] by {
                assert(s@.subrange(k, k + t@.len())[i] == s@[k + i]);
            }
        }
        if t@.is_suffix_of(s@) {
            assert(s@.subrange(k, k + t@.len()) =~= t@);
        }
    }
    r
}


/// `t` occurs at `i` and nowhere after.
pub open spec fn is_last_match(s: Seq<char>, t: Seq<char>, i: int) -> bool {
    matches_at(s, t, i) && forall|j: int| i < j ==> !matches_at(s, t, j)
}

/// `str::rfind`: the last position of `t` in `s`.
pub open spec fn rfind(s: Seq<char>, t: Seq<char>) -> Option<int> {
    if contains(s, t) {
        Some(choose|i: int| is_last_match(s, t, i))
    } else {
        None
    }
}

pub proof fn lemma_rfind_last(s: Seq<char>, t: Seq<char>, i: int)
    requires
        is_last_match(s, t, i),
    ensures
        rfind(s, t) == Some(i),
{
    assert(contains(s, t));
    let k = choose|k: int| is_last_match(s, t, k);
    assert(is_last_match(s, t, k));
    if k < i {
        assert(!matches_at(s, t, i));
    } else if k > i {
        assert(!matches_at(s, t, k));
    }
}

/// The last position where `t` occurs in `s`.
pub fn rfind_exec(s: &[char], t: &[char]) -> (r: Option<usize>)
    ensures
        match r {
            Some(i) => rfind(s@, t@) == Some(i as int) && i + t@.len() <= s@.len(),
            None => rfind(s@, t@) is None,
        },
{
    if t.len() > s.len() {
        proof {
            assert forall|j: int| !matches_at(s@, t@, j) by {}
        }
        return None;
    }
    let mut i: usize = s.len() - t.len();
    loop
        invariant
            i <= s@.len() - t@.len(),
            t@.len() <= s@.len(),
            forall|j: int| i < j ==> !matches_at(s@, t@, j),
        decreases i,
    {
        if matches_at_exec(s, t, i) {
            proof {
                lemma_rfind_last(s@, t@, i as int);
            }
            return Some(i);
        }
        if i == 0 {
            proof {
                assert forall|j: int| !matches_at(s@, t@, j) by {
                    if 0 <= j && !(0 < j) {
                        assert(j == 0);
                    }
                }
            }
            return None;
        }
        i = i - 1;
    }
}


/// The longest prefix of `s` that fits in `cap` UTF-8 bytes.
pub open spec fn byte_cut(s: Seq<char>, cap: nat) -> Seq<char> {
    s.take((choose|k: nat| is_byte_prefix_len(s, cap, k)) as int)
}

pub proof fn lemma_byte_cut(s: Seq<char>, cap: nat, k: nat)
    requires
        is_byte_prefix_len(s, cap, k),
    ensures
        byte_cut(s, cap) == s.take(k as int),
        byte_len(s) <= cap ==> k == s.len(),
{
    let c = choose|c: nat| is_byte_prefix_len(s, cap, c);
    lemma_byte_prefix_len_unique(s, cap, c, k);
    if k < s.len() {
        lemma_byte_len_take_mono(s, k + 1 as int, s.len() as int);
        assert(s.take(s.len() as int) =~= s);
    }
}

/// `s` cut to at most `cap` bytes on a character boundary.
pub fn byte_cut_exec(s: &[char], cap: usize) -> (r: Vec<char>)
    ensures
        r@ == byte_cut(s@, cap as nat),
        byte_len(s@) <= cap ==> r@ == s@,
{
    let k = byte_prefix_len(s, cap);
    proof {
        lemma_byte_cut(s@, cap as nat, k as nat);
        assert(s@.take(s@.len() as int) =~= s@);
    }
    let r = slice_to_vec(s, 0, k);
    assert(r@ =~= s@.take(k as int));
    r
}

/// `str::trim_start_matches` with a non-empty string: every leading copy of
/// `p` removed.
pub open spec fn strip_all(s: Seq<char>, p: Seq<char>) -> Seq<char>
    decreases s.len(),
{
    if p.len() > 0 && p.is_prefix_of(s) {
        strip_all(s.skip(p.len() as int), p)
    } else {
        s
    }
}

/// Remove every leading copy of `p` from `s` (see `strip_all`).
pub fn strip_all_exec(s: &[char], p: &[char]) -> (r: Vec<char>)
    ensures
        r@ == strip_all(s@, p@),
{
    let mut i: usize = 0;
    assert(s@.skip(0) =~= s@);
    let mut go = p.len() > 0 && matches_at_exec(s, p, 0);
    while go
        invariant
            i <= s@.len(),
            strip_all(s@, p@) == strip_all(s@.skip(i as int), p@),
            go ==> p@.len() > 0 && matches_at(s@, p@, i as int),
            !go ==> !(p@.len() > 0 && matches_at(s@, p@, i as int)),
        decreases s@.len() - i,
    {
        proof {
            let rest = s@.skip(i as int);
            assert(rest.subrange(0, p@.len() as int) =~= s@.subrange(i as int, i + p@.len()));
            assert(p@.is_prefix_of(rest));
            assert(rest.skip(p@.len() as int) =~= s@.skip(i + p@.len()));
        }
        let pl = p.len();
        assert(s@.len() == s.len());
        i = i + pl;
        go = matches_at_exec(s, p, i);
    }
    proof {
        let rest = s@.skip(i as int);
        if p@.len() > 0 && p@.is_prefix_of(rest) {
            assert(rest.subrange(0, p@.len() as int) =~= s@.subrange(i as int, i + p@.len()));
            assert(matches_at(s@, p@, i as int));
        }
    }
    slice_to_vec(s, i, s.len())
}

// ---------------------------------------------------------------------------
// Numbers
// ---------------------------------------------------------------------------

pub open spec fn digit_char(d: nat) -> char {
    (('0' as u32) + d) as char
}

/// Decimal digits of `n`, no leading zeros.
pub open spec fn decimal(n: nat) -> Seq<char>
    decreases n,
{
    if n < 10 {
        seq![digit_char(n)]
    } else {
        decimal(n / 10).push(digit_char(n % 10))
    }
}

/// Append the decimal digits of `n`.
pub fn push_decimal(v: &mut Vec<char>, n: u64)
    ensures
        final(v)@ == old(v)@ + decimal(n as nat),
    decreases n,
{
    if n >= 10 {
        push_decimal(v, n / 10);
    }
    let d = (n % 10) as u32;
    let c = char_from_ascii(48 + d);
    v.push(c);
    proof {
        if n >= 10 {
            assert(old(v)@ + decimal(n as nat) =~= old(v)@ + decimal((n / 10) as nat) + seq![c]);
        } else {
            assert(old(v)@ + decimal(n as nat) =~= old(v)@.push(c));
        }
    }
}

/// Decimal text of `n`.
pub fn decimal_string(n: u64) -> (s: String)
    ensures
        s@ == decimal(n as nat),
{
    let mut v: Vec<char> = Vec::new();
    push_decimal(&mut v, n);
    assert(v@ =~= decimal(n as nat));
    from_chars(v.as_slice())
}

/// Value of a run of ASCII digits.
pub open spec fn digits_value(s: Seq<char>) -> nat
    decreases s.len(),
{
    if s.len() == 0 {
        0
    } else {
        digits_value(s.drop_last()) * 10 + ((s.last() as u32) - ('0' as u32)) as nat
    }
}

pub open spec fn all_digits(s: Seq<char>) -> bool {
    forall|i: int| 0 <= i < s.len() ==> is_ascii_digit(#[trigger] s[i])
}

/// `str::parse` for an unsigned integer type whose largest value is
/// `max`: an optional `+`, then at least one ASCII digit, in range.
pub open spec fn parse_unsigned(s: Seq<char>, max: nat) -> Option<nat> {
    let d = if s.len() > 0 && s[0] == '+' {
        s.drop_first()
    } else {
        s
    };
    if d.len() > 0 && all_digits(d) && digits_value(d) <= max {
        Some(digits_value(d))
    } else {
        None
    }
}

proof fn lemma_digits_value_mono(s: Seq<char>, i: int)
    requires
        0 <= i <= s.len(),
        all_digits(s),
    ensures
        digits_value(s.take(i)) <= digits_value(s),
    decreases s.len() - i,
{
    if i < s.len() {
        lemma_digits_value_mono(s, i + 1);
        assert(s.take(i + 1).drop_last() =~= s.take(i));
        assert(is_ascii_digit(s[i]));
    } else {
        assert(s.take(i) =~= s);
    }
}

/// `str::parse::<u64>` (and the narrower unsigned types, via `max`).
pub fn parse_unsigned_exec(s: &[char], max: u64) -> (r: Option<u64>)
    ensures
        match r {
            Some(v) => parse_unsigned(s@, max as nat) == Some(v as nat),
            None => parse_unsigned(s@, max as nat) is None,
        },
{
    let start: usize = if s.len() > 0 && s[0] == '+' {
        1
    } else {
        0
    };
    let ghost d = if s@.len() > 0 && s@[0] == '+' {
        s@.drop_first()
    } else {
        s@
    };
    assert(d =~= s@.skip(start as int));
    if start == s.len() {
        assert(d.len() == 0);
        return None;
    }
    let mut i = start;
    let mut value: u64 = 0;
    while i < s.len()
        invariant
            start <= i <= s@.len(),
            d == s@.skip(start as int),
            d == (if s@.len() > 0 && s@[0] == '+' {
                s@.drop_first()
            } else {
                s@
            }),
            value as nat == digits_value(d.take(i - start)),
            value <= max,
            all_digits(d.take(i - start)),
        decreases s@.len() - i,
    {
        let c = s[i];
        proof {
            assert(d.take(i - start + 1).drop_last() =~= d.take(i - start));
            assert(d.take(i - start + 1).last() == c);
        }
        if !('0' <= c && c <= '9') {
            assert(!all_digits(d)) by {
                assert(d[i - start] == c);
                assert(!is_ascii_digit(d[i - start]));
            }
            assert(parse_unsigned(s@, max as nat) is None);
            return None;
        }
        let dig = (c as u32 - '0' as u32) as u64;
        if dig > max || value > (max - dig) / 10 {
            proof {
                assert(value * 10 + dig > max) by (nonlinear_arith)
                    requires
                        dig > max || value > (max - dig) / 10,
                        dig < 10,
                ;
                assert(all_digits(d.take(i - start + 1))) by {
                    assert forall|k: int| 0 <= k < i - start + 1 implies is_ascii_digit(
                        #[trigger] d.take(i - start + 1)[k],
                    ) by {
                        if k < i - start {
                            assert(d.take(i - start + 1)[k] == d.take(i - start)[k]);
                        }
                    }
                }
                if all_digits(d) {
                    lemma_digits_value_mono(d, i - start + 1);
                    assert(digits_value(d.take(i - start + 1)) == value * 10 + dig);
                }
            }
            assert(parse_unsigned(s@, max as nat) is None);
            return None;
        }
        value = value * 10 + dig;
        proof {
            assert forall|k: int| 0 <= k < i - start + 1 implies is_ascii_digit(
                #[trigger] d.take(i - start + 1)[k],
            ) by {
                if k < i - start {
                    assert(d.take(i - start + 1)[k] == d.take(i - start)[k]);
                }
            }
        }
        i = i + 1;
    }
    assert(d.take(i - start) =~= d);
    Some(value)
}

/// `str::len`: the number of bytes of the UTF-8 encoding of `s`. std
/// documents that a string slice never exceeds `isize::MAX` bytes.
#[verifier::external_body]
pub fn str_len(s: &str) -> (n: usize)
    ensures
        n as nat == byte_len(s@),
        n <= isize::MAX,
{
    s.len()
}

/// Characters of `s` together with its byte length.
pub fn chars_and_len(s: &str) -> (r: (Vec<char>, usize))
    ensures
        r.0@ == s@,
        r.1 as nat == byte_len(s@),
        r.1 <= isize::MAX,
        s@.len() <= byte_len(s@),
{
    proof {
        lemma_byte_len_ge_len(s@);
    }
    (to_chars(s), str_len(s))
}

// ---------------------------------------------------------------------------
// Counting and replacing matches
// ---------------------------------------------------------------------------

/// Non-overlapping matches of a non-empty `t` in `s` from position `i`,
/// leftmost first (`str::matches`).
pub open spec fn count_from(s: Seq<char>, t: Seq<char>, i: int) -> nat
    decreases s.len() - i,
{
    if t.len() == 0 || i < 0 || i + t.len() > s.len() {
        0
    } else if matches_at(s, t, i) {
        1 + count_from(s, t, i + t.len())
    } else {
        count_from(s, t, i + 1)
    }
}

/// `str::matches(t).count()`: an empty `t` matches at every character
/// boundary.
pub open spec fn match_count(s: Seq<char>, t: Seq<char>) -> nat {
    if t.len() == 0 {
        s.len() + 1
    } else {
        count_from(s, t, 0)
    }
}

/// `s[i..]` with every non-overlapping match of a non-empty `t` replaced.
pub open spec fn replace_from(s: Seq<char>, t: Seq<char>, r: Seq<char>, i: int) -> Seq<char>
    decreases s.len() - i,
{
    if t.len() == 0 || i < 0 || i + t.len() > s.len() {
        s.skip(i)
    } else if matches_at(s, t, i) {
        r + replace_from(s, t, r, i + t.len())
    } else {
        seq![s[i]] + replace_from(s, t, r, i + 1)
    }
}

/// `r` before, between and after every character of `s`.
pub open spec fn interleave(s: Seq<char>, r: Seq<char>) -> Seq<char>
    decreases s.len(),
{
    if s.len() == 0 {
        r
    } else {
        r + seq![s[0]] + interleave(s.drop_first(), r)
    }
}

/// `str::replace(t, r)`.
pub open spec fn replace_all(s: Seq<char>, t: Seq<char>, r: Seq<char>) -> Seq<char> {
    if t.len() == 0 {
        interleave(s, r)
    } else {
        replace_from(s, t, r, 0)
    }
}

/// `str::replacen(t, r, 1)`.
pub open spec fn replace_first(s: Seq<char>, t: Seq<char>, r: Seq<char>) -> Seq<char> {
    match find(s, t) {
        Some(i) => s.take(i) + r + s.skip(i + t.len()),
        None => s,
    }
}

/// `str::matches(t).count()`.
pub fn match_count_exec(s: &[char], t: &[char]) -> (n: usize)
    requires
        s@.len() < usize::MAX,
    ensures
        n == match_count(s@, t@),
{
    if t.len() == 0 {
        return s.len() + 1;
    }
    let mut n: usize = 0;
    let mut i: usize = 0;
    while t.len() <= s.len() - i
        invariant
            t@.len() > 0,
            i <= s@.len(),
            n + count_from(s@, t@, i as int) == count_from(s@, t@, 0),
            n <= i,
        decreases s@.len() - i,
    {
        if matches_at_exec(s, t, i) {
            n = n + 1;
            i = i + t.len();
        } else {
            i = i + 1;
        }
    }
    n
}

/// `str::replace(t, r)`.
pub fn replace_all_exec(s: &[char], t: &[char], r: &[char]) -> (out: Vec<char>)
    ensures
        out@ == replace_all(s@, t@, r@),
{
    let mut out: Vec<char> = Vec::new();
    if t.len() == 0 {
        let mut i: usize = 0;
        assert(s@.skip(0) =~= s@);
        while i < s.len()
            invariant
                i <= s@.len(),
                out@ + interleave(s@.skip(i as int), r@) == interleave(s@, r@),
            decreases s@.len() - i,
        {
            proof {
                assert(s@.skip(i as int).drop_first() =~= s@.skip(i + 1));
                assert(out@ + interleave(s@.skip(i as int), r@) =~= out@ + r@ + seq![s@[i as int]]
                    + interleave(s@.skip(i + 1), r@));
            }
            extend(&mut out, r);
            out.push(s[i]);
            i = i + 1;
        }
        assert(s@.skip(s@.len() as int) =~= Seq::<char>::empty());
        extend(&mut out, r);
        return out;
    }
    let mut i: usize = 0;
    while t.len() <= s.len() - i
        invariant
            t@.len() > 0,
            i <= s@.len(),
            out@ + replace_from(s@, t@, r@, i as int) == replace_from(s@, t@, r@, 0),
        decreases s@.len() - i,
    {
        let ghost before = out@;
        if matches_at_exec(s, t, i) {
            extend(&mut out, r);
            assert(before + replace_from(s@, t@, r@, i as int) =~= out@ + replace_from(
                s@,
                t@,
                r@,
                i + t@.len(),
            ));
            i = i + t.len();
        } else {
            out.push(s[i]);
            assert(before + replace_from(s@, t@, r@, i as int) =~= out@ + replace_from(
                s@,
                t@,
                r@,
                i + 1,
            ));
            i = i + 1;
        }
    }
    let tail = slice_to_vec(s, i, s.len());
    extend(&mut out, tail.as_slice());
    assert(tail@ =~= s@.skip(i as int));
    out
}

/// `str::replacen(t, r, 1)`.
pub fn replace_first_exec(s: &[char], t: &[char], r: &[char]) -> (out: Vec<char>)
    ensures
        out@ == replace_first(s@, t@, r@),
{
    let n = s.len();
    match find_exec(s, t) {
        Some(i) => {
            let mut out = slice_to_vec(s, 0, i);
            extend(&mut out, r);
            let tail = slice_to_vec(s, i + t.len(), s.len());
            extend(&mut out, tail.as_slice());
            assert(out@ =~= s@.take(i as int) + r@ + s@.skip(i + t@.len()));
            out
        },
        None => slice_to_vec(s, 0, s.len()),
    }
}

} // verus!
