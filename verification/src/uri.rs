//! `file://` URIs for language servers: an absolute path is written with
//! every byte outside `A-Z a-z 0-9 - . _ ~ /` percent-encoded, and a URI
//! is read back by undoing the percent-encoding of its path.
use vstd::prelude::*;
use vstd::utf8::{decode_utf8, encode_utf8, valid_utf8};

use crate::text::{bytes_range, extend_str, from_chars};
use crate::transport::utf8_text;

verus! {

broadcast use vstd::utf8::encode_utf8_valid_utf8, vstd::utf8::encode_utf8_decode_utf8;

/// Bytes written as they are.
pub open spec fn unreserved(b: u8) -> bool {
    (0x41 <= b <= 0x5A) || (0x61 <= b <= 0x7A) || (0x30 <= b <= 0x39) || b == 0x2D || b == 0x2E
        || b == 0x5F || b == 0x7E || b == 0x2F
}

/// Upper-case hex digit of `d < 16`.
pub open spec fn hex_digit(d: u8) -> u8 {
    if d < 10 {
        (0x30 + d) as u8
    } else {
        (0x41 + d - 10) as u8
    }
}

/// `%XY` for a byte, `XY` its value in upper-case hex.
pub open spec fn escaped(b: u8) -> Seq<u8> {
    seq![0x25u8, hex_digit(b / 16), hex_digit(b % 16)]
}

/// The percent-encoding of `bs`.
pub open spec fn encode_bytes(bs: Seq<u8>) -> Seq<u8>
    decreases bs.len(),
{
    if bs.len() == 0 {
        Seq::empty()
    } else {
        (if unreserved(bs[0]) {
            seq![bs[0]]
        } else {
            escaped(bs[0])
        }) + encode_bytes(bs.drop_first())
    }
}

/// The characters of ASCII bytes.
pub open spec fn ascii_chars(bs: Seq<u8>) -> Seq<char> {
    bs.map_values(|b: u8| b as char)
}

pub open spec fn file_scheme() -> Seq<u8> {
    seq![0x66u8, 0x69, 0x6C, 0x65, 0x3A, 0x2F, 0x2F]
}

/// The URI of a path: `None` for a relative path.
pub open spec fn path_uri(p: Seq<char>) -> Option<Seq<char>> {
    if p.len() > 0 && p[0] == '/' {
        Some(ascii_chars(file_scheme() + encode_bytes(encode_utf8(p))))
    } else {
        None
    }
}

pub open spec fn is_hex(b: u8) -> bool {
    (0x30 <= b <= 0x39) || (0x41 <= b <= 0x46) || (0x61 <= b <= 0x66)
}

pub open spec fn hex_value(b: u8) -> u8 {
    if b <= 0x39 {
        (b - 0x30) as u8
    } else if b <= 0x46 {
        (b - 0x41 + 10) as u8
    } else {
        (b - 0x61 + 10) as u8
    }
}

/// `u8::from_str_radix(.., 16)` of the two bytes after a `%`: two hex
/// digits, or `+` and one hex digit.
pub open spec fn pct_value(b1: u8, b2: u8) -> Option<u8> {
    if b1 == 0x2B && is_hex(b2) {
        Some(hex_value(b2))
    } else if is_hex(b1) && is_hex(b2) {
        Some((hex_value(b1) * 16 + hex_value(b2)) as u8)
    } else {
        None
    }
}

/// Undo percent-encoding: a `%` followed by at least two bytes must
/// introduce a hex value; a `%` near the end stays as it is.
pub open spec fn pct_decode(bs: Seq<u8>) -> Option<Seq<u8>>
    decreases bs.len(),
{
    if bs.len() == 0 {
        Some(Seq::empty())
    } else if bs[0] == 0x25 && 2 < bs.len() {
        match pct_value(bs[1], bs[2]) {
            Some(v) => match pct_decode(bs.skip(3)) {
                Some(r) => Some(seq![v] + r),
                None => None,
            },
            None => None,
        }
    } else {
        match pct_decode(bs.drop_first()) {
            Some(r) => Some(seq![bs[0]] + r),
            None => None,
        }
    }
}

/// The bytes before the first `?` or `#`.
pub open spec fn cut_query(bs: Seq<u8>) -> Seq<u8>
    decreases bs.len(),
{
    if bs.len() == 0 {
        bs
    } else if bs[0] == 0x3F || bs[0] == 0x23 {
        Seq::empty()
    } else {
        seq![bs[0]] + cut_query(bs.drop_first())
    }
}

/// The path a URI names, read from its bytes: it must start with
/// `file://`, its path (up to any query or fragment) must start with `/`,
/// and the decoded bytes must be UTF-8.
pub open spec fn uri_path(ub: Seq<u8>) -> Option<Seq<char>> {
    if ub.len() >= 7 && ub.take(7) == file_scheme() {
        let rest = cut_query(ub.skip(7));
        if rest.len() > 0 && rest[0] == 0x2F {
            match pct_decode(rest) {
                Some(out) => if valid_utf8(out) {
                    Some(decode_utf8(out))
                } else {
                    None
                },
                None => None,
            }
        } else {
            None
        }
    } else {
        None
    }
}

pub open spec fn relative_path_error(p: Seq<char>) -> Seq<char> {
    "cannot convert relative path "@ + p + " to a URI"@
}

pub open spec fn then_prefix(p: Seq<u8>, o: Option<Seq<u8>>) -> Option<Seq<u8>> {
    match o {
        Some(r) => Some(p + r),
        None => None,
    }
}

fn is_hex_exec(b: u8) -> (r: bool)
    ensures
        r == is_hex(b),
{
    (0x30 <= b && b <= 0x39) || (0x41 <= b && b <= 0x46) || (0x61 <= b && b <= 0x66)
}

fn hex_value_exec(b: u8) -> (r: u8)
    requires
        is_hex(b),
    ensures
        r == hex_value(b),
        r < 16,
{
    if b <= 0x39 {
        b - 0x30
    } else if b <= 0x46 {
        b - 0x41 + 10
    } else {
        b - 0x61 + 10
    }
}

fn pct_value_exec(b1: u8, b2: u8) -> (r: Option<u8>)
    ensures
        r == pct_value(b1, b2),
{
    if b1 == 0x2B && is_hex_exec(b2) {
        Some(hex_value_exec(b2))
    } else if is_hex_exec(b1) && is_hex_exec(b2) {
        let hi = hex_value_exec(b1);
        let lo = hex_value_exec(b2);
        Some(hi * 16 + lo)
    } else {
        None
    }
}

proof fn lemma_cut_query_step(s: Seq<u8>, i: int)
    requires
        0 <= i < s.len(),
        s[i] != 0x3F && s[i] != 0x23,
    ensures
        cut_query(s.skip(i)) == seq![s[i]] + cut_query(s.skip(i + 1)),
{
    assert(s.skip(i)[0] == s[i]);
    assert(s.skip(i).drop_first() =~= s.skip(i + 1));
}

/// The path a `file://` URI names (see `uri_path`).
pub fn uri_to_path(uri: &str) -> (r: Option<String>)
    ensures
        match r {
            Some(p) => uri_path(encode_utf8(uri@)) == Some(p@),
            None => uri_path(encode_utf8(uri@)) is None,
        },
{
    let ub = uri.as_bytes();
    let ghost u = ub@;
    let n = ub.len();
    if n < 7 {
        return None;
    }
    let scheme = [0x66u8, 0x69, 0x6C, 0x65, 0x3A, 0x2F, 0x2F];
    let mut k: usize = 0;
    while k < 7
        invariant
            k <= 7 <= u.len(),
            u == ub@,
            u.take(k as int) =~= file_scheme().take(k as int),
            scheme@ == file_scheme(),
            u == encode_utf8(uri@),
        decreases 7 - k,
    {
        if ub[k] != scheme[k] {
            assert(u.take(7)[k as int] != file_scheme()[k as int]);
            return None;
        }
        assert(u.take(k + 1) =~= u.take(k as int).push(u[k as int]));
        assert(file_scheme().take(k + 1) =~= file_scheme().take(k as int).push(file_scheme()[k as int]));
        k = k + 1;
    }
    assert(file_scheme().take(7) =~= file_scheme());
    let mut end: usize = 7;
    assert(u.skip(7).skip(0) =~= u.skip(7));
    assert(u.subrange(7, 7) =~= Seq::<u8>::empty());
    while end < n && ub[end] != 0x3F && ub[end] != 0x23
        invariant
            7 <= end <= n,
            n == u.len(),
            u == ub@,
            cut_query(u.skip(7)) == u.subrange(7, end as int) + cut_query(u.skip(end as int)),
        decreases n - end,
    {
        proof {
            lemma_cut_query_step(u, end as int);
            assert(u.subrange(7, end + 1) =~= u.subrange(7, end as int) + seq![u[end as int]]);
        }
        end = end + 1;
    }
    proof {
        if end < n {
            assert(u.skip(end as int)[0] == u[end as int]);
        }
        assert(cut_query(u.skip(end as int)) =~= Seq::<u8>::empty());
    }
    let rest = bytes_range(ub, 7, end);
    let ghost rv = rest@;
    assert(rv =~= cut_query(u.skip(7)));
    if rest.len() == 0 || rest[0] != 0x2F {
        return None;
    }
    let m = rest.len();
    let mut out: Vec<u8> = Vec::new();
    let mut j: usize = 0;
    assert(rv.skip(0) =~= rv);
    assert(Seq::<u8>::empty() + rv =~= rv);
    while j < m
        invariant
            j <= m,
            m == rv.len(),
            rv == rest@,
            pct_decode(rv) == then_prefix(out@, pct_decode(rv.skip(j as int))),
            u == encode_utf8(uri@),
            u.len() >= 7,
            u.take(7) == file_scheme(),
            rv == cut_query(u.skip(7)),
            rv.len() > 0 && rv[0] == 0x2F,
        decreases m - j,
    {
        let ghost t = rv.skip(j as int);
        assert(t[0] == rv[j as int]);
        if rest[j] == 0x25 && m - j > 2 {
            assert(t[1] == rv[j + 1] && t[2] == rv[j + 2]);
            match pct_value_exec(rest[j + 1], rest[j + 2]) {
                Some(v) => {
                    let ghost before = out@;
                    out.push(v);
                    proof {
                        assert(t.skip(3) =~= rv.skip(j + 3));
                        match pct_decode(rv.skip(j + 3)) {
                            Some(r2) => {
                                assert(before + (seq![v] + r2) =~= out@ + r2);
                            },
                            None => {},
                        }
                    }
                    j = j + 3;
                },
                None => {
                    return None;
                },
            }
        } else {
            let ghost before = out@;
            out.push(rest[j]);
            proof {
                assert(t.drop_first() =~= rv.skip(j + 1));
                match pct_decode(rv.skip(j + 1)) {
                    Some(r2) => {
                        assert(before + (seq![rv[j as int]] + r2) =~= out@ + r2);
                    },
                    None => {},
                }
            }
            j = j + 1;
        }
    }
    assert(rv.skip(m as int) =~= Seq::<u8>::empty());
    assert(out@ + Seq::<u8>::empty() =~= out@);
    utf8_text(out.as_slice())
}

fn hex_digit_exec(d: u8) -> (r: char)
    requires
        d < 16,
    ensures
        r == hex_digit(d) as char,
        (r as u32) < 0x80,
{
    if d < 10 {
        (0x30 + d) as char
    } else {
        (0x41 + d - 10) as char
    }
}

/// The `file://` URI of an absolute path; a relative path is refused.
pub fn path_to_uri(path: &str) -> (r: Result<String, String>)
    ensures
        match r {
            Ok(u) => path_uri(path@) == Some(u@),
            Err(m) => path_uri(path@) is None && m@ == relative_path_error(path@),
        },
{
    let bytes = path.as_bytes();
    proof {
        if path@.len() > 0 {
            lemma_first_byte(path@);
        } else {
            assert(encode_utf8(path@) =~= Seq::<u8>::empty());
        }
    }
    if bytes.len() == 0 || bytes[0] != 0x2F {
        let mut v: Vec<char> = Vec::new();
        extend_str(&mut v, "cannot convert relative path ");
        extend_str(&mut v, path);
        extend_str(&mut v, " to a URI");
        return Err(from_chars(v.as_slice()));
    }
    let mut out: Vec<char> = vec!['f', 'i', 'l', 'e', ':', '/', '/'];
    assert(out@ =~= ascii_chars(file_scheme()));
    let ghost bv = bytes@;
    let mut i: usize = 0;
    while i < bytes.len()
        invariant
            i <= bv.len(),
            bv == bytes@,
            out@ == ascii_chars(file_scheme() + encode_bytes(bv.take(i as int))),
        decreases bv.len() - i,
    {
        let b = bytes[i];
        let ghost before = out@;
        let un = (0x41 <= b && b <= 0x5A) || (0x61 <= b && b <= 0x7A) || (0x30 <= b && b <= 0x39)
            || b == 0x2D || b == 0x2E || b == 0x5F || b == 0x7E || b == 0x2F;
        if un {
            out.push(b as char);
        } else {
            out.push('%');
            out.push(hex_digit_exec(b / 16));
            out.push(hex_digit_exec(b % 16));
        }
        proof {
            lemma_encode_bytes_push(bv.take(i as int), b);
            assert(bv.take(i + 1) =~= bv.take(i as int).push(b));
            let piece = if unreserved(b) {
                seq![b]
            } else {
                escaped(b)
            };
            assert(file_scheme() + encode_bytes(bv.take(i + 1)) =~= (file_scheme() + encode_bytes(
                bv.take(i as int),
            )) + piece);
            assert(out@ =~= ascii_chars((file_scheme() + encode_bytes(bv.take(i as int))) + piece));
        }
        i = i + 1;
    }
    assert(bv.take(bv.len() as int) =~= bv);
    Ok(from_chars(out.as_slice()))
}

proof fn lemma_first_byte(p: Seq<char>)
    requires
        p.len() > 0,
    ensures
        encode_utf8(p).len() > 0,
        (encode_utf8(p)[0] == 0x2F) == (p[0] == '/'),
{
    vstd::utf8::encode_utf8_first_scalar(p);
    let c = p[0] as u32;
    reveal_with_fuel(encode_utf8, 1);
    assert(encode_utf8(p) == vstd::utf8::encode_scalar(c) + encode_utf8(p.drop_first()));
    if c < 0x80 {
        assert((c & 0x7F) as u8 == c as u8) by (bit_vector)
            requires
                c < 0x80,
        ;
        assert(vstd::utf8::has_width_1_encoding(c));
        vstd::utf8::char_u32_cast(p[0], c);
        vstd::utf8::char_u32_cast('/', 0x2Fu32);
        assert(('/' as u32) == 0x2F);
    } else {
        assert(!vstd::utf8::has_width_1_encoding(c));
        lemma_wide_first_byte(c);
    }
}

proof fn lemma_wide_first_byte(c: u32)
    requires
        c >= 0x80,
        vstd::utf8::is_scalar(c),
    ensures
        vstd::utf8::encode_scalar(c)[0] >= 0xC0,
{
    if vstd::utf8::has_width_2_encoding(c) {
        assert(0xC0 | ((c >> 6) & 0x1F) as u8 >= 0xC0) by (bit_vector);
    } else if vstd::utf8::has_width_3_encoding(c) {
        assert(0xE0 | ((c >> 12) & 0x0F) as u8 >= 0xC0) by (bit_vector);
    } else {
        assert(0xF0 | ((c >> 18) & 0x7) as u8 >= 0xC0) by (bit_vector);
    }
}

proof fn lemma_encode_bytes_push(bs: Seq<u8>, b: u8)
    ensures
        encode_bytes(bs.push(b)) == encode_bytes(bs) + (if unreserved(b) {
            seq![b]
        } else {
            escaped(b)
        }),
    decreases bs.len(),
{
    if bs.len() == 0 {
        assert(bs.push(b).drop_first() =~= Seq::<u8>::empty());
        assert(bs.push(b)[0] == b);
        assert(encode_bytes(bs) =~= Seq::<u8>::empty());
        assert(encode_bytes(Seq::<u8>::empty()) =~= Seq::<u8>::empty());
        assert(encode_bytes(bs.push(b)) =~= encode_bytes(bs) + (if unreserved(b) {
            seq![b]
        } else {
            escaped(b)
        }));
    } else {
        lemma_encode_bytes_push(bs.drop_first(), b);
        assert(bs.push(b).drop_first() =~= bs.drop_first().push(b));
        assert(bs.push(b)[0] == bs[0]);
        let first = if unreserved(bs[0]) {
            seq![bs[0]]
        } else {
            escaped(bs[0])
        };
        let last = if unreserved(b) {
            seq![b]
        } else {
            escaped(b)
        };
        assert(first + (encode_bytes(bs.drop_first()) + last) =~= (first + encode_bytes(bs.drop_first())) + last);
    }
}

// ---------------------------------------------------------------------------
// Round trip
// ---------------------------------------------------------------------------

pub open spec fn all_ascii(bs: Seq<u8>) -> bool {
    forall|i: int| 0 <= i < bs.len() ==> (#[trigger] bs[i]) < 0x80
}

pub open spec fn no_query_byte(bs: Seq<u8>) -> bool {
    forall|i: int| 0 <= i < bs.len() ==> (#[trigger] bs[i]) != 0x3F && bs[i] != 0x23
}

proof fn lemma_ascii_encode(bs: Seq<u8>)
    requires
        all_ascii(bs),
    ensures
        encode_utf8(ascii_chars(bs)) == bs,
    decreases bs.len(),
{
    if bs.len() > 0 {
        let t = bs.drop_first();
        assert(all_ascii(t)) by {
            assert forall|i: int| 0 <= i < t.len() implies (#[trigger] t[i]) < 0x80 by {
                assert(t[i] == bs[i + 1]);
            }
        }
        lemma_ascii_encode(t);
        let cs = ascii_chars(bs);
        assert(cs.drop_first() =~= ascii_chars(t));
        let b = bs[0];
        assert(b < 0x80);
        let c = (b as char) as u32;
        assert(c == b as u32);
        assert((c & 0x7F) as u8 == b) by (bit_vector)
            requires
                c == b as u32,
                b < 0x80,
        ;
        assert(vstd::utf8::encode_scalar(cs[0] as u32) =~= seq![b]);
        assert(encode_utf8(cs) =~= seq![b] + t);
    }
}

proof fn lemma_hex_digit(d: u8)
    requires
        d < 16,
    ensures
        is_hex(hex_digit(d)),
        hex_value(hex_digit(d)) == d,
        hex_digit(d) != 0x2B,
        hex_digit(d) < 0x80,
        hex_digit(d) != 0x3F && hex_digit(d) != 0x23,
{
}

proof fn lemma_encode_bytes_shape(bs: Seq<u8>)
    ensures
        all_ascii(encode_bytes(bs)),
        no_query_byte(encode_bytes(bs)),
        pct_decode(encode_bytes(bs)) == Some(bs),
    decreases bs.len(),
{
    if bs.len() == 0 {
        assert(encode_bytes(bs) =~= Seq::<u8>::empty());
        assert(bs =~= Seq::<u8>::empty());
    } else {
        let t = bs.drop_first();
        lemma_encode_bytes_shape(t);
        let b = bs[0];
        let et = encode_bytes(t);
        let e = encode_bytes(bs);
        if unreserved(b) {
            assert(e == seq![b] + et);
            assert(e[0] == b);
            assert(e.drop_first() =~= et);
            assert forall|i: int| 0 <= i < e.len() implies (#[trigger] e[i]) < 0x80 && e[i] != 0x3F && e[i] != 0x23 by {
                if i > 0 {
                    assert(e[i] == et[i - 1]);
                }
            }
            assert(seq![b] + t =~= bs);
        } else {
            lemma_hex_digit(b / 16);
            lemma_hex_digit(b % 16);
            assert(e == escaped(b) + et);
            assert(e[0] == 0x25 && e[1] == hex_digit(b / 16) && e[2] == hex_digit(b % 16));
            assert(e.skip(3) =~= et);
            assert(pct_value(e[1], e[2]) == Some(b));
            assert forall|i: int| 0 <= i < e.len() implies (#[trigger] e[i]) < 0x80 && e[i] != 0x3F && e[i] != 0x23 by {
                if i > 2 {
                    assert(e[i] == et[i - 3]);
                }
            }
            assert(seq![b] + t =~= bs);
        }
    }
}

proof fn lemma_cut_query_none(bs: Seq<u8>)
    requires
        no_query_byte(bs),
    ensures
        cut_query(bs) == bs,
    decreases bs.len(),
{
    if bs.len() > 0 {
        let t = bs.drop_first();
        assert(no_query_byte(t)) by {
            assert forall|i: int| 0 <= i < t.len() implies (#[trigger] t[i]) != 0x3F && t[i] != 0x23 by {
                assert(t[i] == bs[i + 1]);
            }
        }
        lemma_cut_query_none(t);
        assert(seq![bs[0]] + t =~= bs);
    }
}

/// Round-trip law: the path of the URI of an absolute path is that path.
pub proof fn law_uri_round_trip(p: Seq<char>)
    requires
        p.len() > 0,
        p[0] == '/',
    ensures
        path_uri(p) is Some,
        uri_path(encode_utf8(path_uri(p).unwrap())) == Some(p),
{
    let b = encode_utf8(p);
    lemma_first_byte(p);
    lemma_encode_bytes_shape(b);
    let e = encode_bytes(b);
    let u = file_scheme() + e;
    assert(all_ascii(u)) by {
        assert forall|i: int| 0 <= i < u.len() implies (#[trigger] u[i]) < 0x80 by {
            if i >= 7 {
                assert(u[i] == e[i - 7]);
            }
        }
    }
    lemma_ascii_encode(u);
    assert(u.take(7) =~= file_scheme());
    assert(u.skip(7) =~= e);
    lemma_cut_query_none(e);
    assert(e[0] == 0x2F) by {
        assert(unreserved(b[0]));
        assert(e == seq![b[0]] + encode_bytes(b.drop_first()));
    }
}

} // verus!
