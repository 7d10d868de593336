//! The language-server wire: `Content-Length` framing of JSON-RPC
//! messages, and the answers given to requests a server sends the client.
use vstd::prelude::*;

use crate::json::{json_get, json_items, json_items_of, json_kind, json_kind_of, json_member, JsonKind};
use crate::text::{
    chars_eq, eq_ignore_case, extend_str, find, find_exec, from_chars, lower, parse_unsigned,
    parse_unsigned_exec, push_decimal, slice_to_vec, str_eq, to_chars, trim, trim_exec,
};
use vstd::utf8::{decode_utf8, valid_utf8};

verus! {

// ---------------------------------------------------------------------------
// Answers to server requests
// ---------------------------------------------------------------------------

/// `null` repeated `n` times in a JSON array.
pub open spec fn nulls(n: nat) -> Seq<char>
    decreases n,
{
    if n == 0 {
        Seq::empty()
    } else if n == 1 {
        "null"@
    } else {
        nulls((n - 1) as nat) + ",null"@
    }
}

/// Requests the client answers without acting: capability registration,
/// progress tokens, message requests and refresh notifications.
pub open spec fn acknowledged(method: Seq<char>) -> bool {
    method == "client/registerCapability"@ || method == "client/unregisterCapability"@ || method
        == "window/workDoneProgress/create"@ || method == "window/showMessageRequest"@ || method
        == "workspace/semanticTokens/refresh"@ || method == "workspace/inlayHint/refresh"@ || method
        == "workspace/codeLens/refresh"@
}

/// The number of items a `workspace/configuration` request asks for.
pub open spec fn config_items(params: Seq<char>) -> nat {
    match json_member(params, "items"@) {
        Some(m) => if json_kind_of(m) == JsonKind::Array {
            json_items_of(m).len()
        } else {
            0
        },
        None => 0,
    }
}

/// The JSON answer to a server request: `null` for each configuration item
/// asked for, `null` for an acknowledged request, nothing for the rest.
pub open spec fn server_answer(method: Seq<char>, params: Seq<char>) -> Option<Seq<char>> {
    if method == "workspace/configuration"@ {
        Some("["@ + nulls(config_items(params)) + "]"@)
    } else if acknowledged(method) {
        Some("null"@)
    } else {
        None
    }
}

/// Answer a request a server sent (see `server_answer`); `params` is the
/// request's parameters as JSON text.
pub fn answer_server_request(method: &str, params: &str) -> (r: Option<String>)
    ensures
        match r {
            Some(a) => server_answer(method@, params@) == Some(a@),
            None => server_answer(method@, params@) is None,
        },
{
    if str_eq(method, "workspace/configuration") {
        let n: usize = match json_get(params, "items") {
            Some(m) => if json_kind(m.as_str()) == JsonKind::Array {
                let items = json_items(m.as_str());
                assert(items@.map_values(|s: String| s@).len() == items@.len());
                items.len()
            } else {
                0
            },
            None => 0,
        };
        let mut v = to_chars("[");
        let ghost start = v@;
        let mut i: usize = 0;
        while i < n
            invariant
                i <= n,
                v@ == start + nulls(i as nat),
            decreases n - i,
        {
            if i == 0 {
                extend_str(&mut v, "null");
            } else {
                extend_str(&mut v, ",null");
            }
            i = i + 1;
        }
        extend_str(&mut v, "]");
        return Some(from_chars(v.as_slice()));
    }
    if str_eq(method, "client/registerCapability") || str_eq(method, "client/unregisterCapability")
        || str_eq(method, "window/workDoneProgress/create") || str_eq(method, "window/showMessageRequest")
        || str_eq(method, "workspace/semanticTokens/refresh") || str_eq(method, "workspace/inlayHint/refresh")
        || str_eq(method, "workspace/codeLens/refresh") {
        return Some(crate::text::own("null"));
    }
    None
}

// ---------------------------------------------------------------------------
// Framing
// ---------------------------------------------------------------------------

/// `std::str::from_utf8`: the text the bytes encode, when they are valid
/// UTF-8.
#[verifier::external_body]
pub(crate) fn utf8_text(bytes: &[u8]) -> (r: Option<String>)
    ensures
        match r {
            Some(s) => valid_utf8(bytes@) && s@ == decode_utf8(bytes@),
            None => !valid_utf8(bytes@),
        },
{
    std::str::from_utf8(bytes).ok().map(|s| s.to_string())
}

/// Whether `bytes` hold one JSON document.
pub uninterp spec fn is_json_bytes(bytes: Seq<u8>) -> bool;

/// `serde_json::from_slice::<Value>` succeeds: the bytes hold one JSON
/// document. Depends on the bytes alone.
#[verifier::external_body]
fn json_bytes_valid(bytes: &[u8]) -> (r: bool)
    ensures
        r == is_json_bytes(bytes@),
{
    serde_json::from_slice::<serde_json::Value>(bytes).is_ok()
}

/// Why a buffered message cannot be read.
#[derive(Debug, Clone, Copy, PartialEq, Eq, Structural)]
pub enum FrameError {
    /// The header is not UTF-8.
    BadHeader,
    /// A `Content-Length` value is not a number.
    BadLength,
    MissingLength,
    /// The body is not JSON.
    BadJson,
}

/// `\r\n\r\n` at position `i` of `b`.
pub open spec fn blank_at(b: Seq<u8>, i: int) -> bool {
    0 <= i && i + 4 <= b.len() && b[i] == 13 && b[i + 1] == 10 && b[i + 2] == 13 && b[i + 3] == 10
}

/// Where the header ends: the first blank line.
#[verifier::opaque]
pub open spec fn header_end(b: Seq<u8>) -> Option<int> {
    if exists|i: int| blank_at(b, i) {
        Some(choose|i: int| blank_at(b, i) && forall|j: int| 0 <= j < i ==> !blank_at(b, j))
    } else {
        None
    }
}

/// The pieces of `s` between occurrences of `\r\n`.
pub open spec fn header_lines(s: Seq<char>) -> Seq<Seq<char>>
    decreases s.len(),
{
    match find(s, "\r\n"@) {
        Some(i) => if 0 <= i && i + 2 <= s.len() {
            seq![s.take(i)] + header_lines(s.skip(i + 2))
        } else {
            seq![s]
        },
        None => seq![s],
    }
}

/// The `Content-Length` of header lines from the first: each line with a
/// `:` whose name is `content-length` in any ASCII case sets it (the last
/// one counts); a value that is not a number is an error.
pub open spec fn length_of(ls: Seq<Seq<char>>, acc: Option<nat>) -> Result<Option<nat>, ()>
    decreases ls.len(),
{
    if ls.len() == 0 {
        Ok(acc)
    } else {
        let l = ls[0];
        match find(l, seq![':']) {
            Some(c) => if eq_ignore_case(l.take(c), "content-length"@) {
                match parse_unsigned(trim(l.skip(c + 1)), usize::MAX as nat) {
                    Some(v) => length_of(ls.drop_first(), Some(v)),
                    None => Err(()),
                }
            } else {
                length_of(ls.drop_first(), acc)
            },
            None => length_of(ls.drop_first(), acc),
        }
    }
}

/// What a header says of the body's length: `None` when it is not UTF-8,
/// else what its lines say (see `length_of`).
#[verifier::opaque]
pub open spec fn header_length(head: Seq<u8>) -> Option<Result<Option<nat>, ()>> {
    if !valid_utf8(head) {
        None
    } else {
        Some(length_of(header_lines(decode_utf8(head)), None))
    }
}

/// What reading the front of the buffer gives: nothing yet (`None`) while
/// the header or body is incomplete, else the body's bounds, or an error.
pub open spec fn frame_of(b: Seq<u8>) -> Result<Option<(int, int)>, FrameError> {
    match header_end(b) {
        None => Ok(None),
        Some(he) => match header_length(b.take(he)) {
            None => Err(FrameError::BadHeader),
            Some(Err(())) => Err(FrameError::BadLength),
            Some(Ok(None)) => Err(FrameError::MissingLength),
            Some(Ok(Some(len))) => if b.len() < he + 4 + len {
                Ok(None)
            } else if !is_json_bytes(b.subrange(he + 4, he + 4 + len)) {
                Err(FrameError::BadJson)
            } else {
                Ok(Some((he + 4, he + 4 + len)))
            },
        },
    }
}

/// The announced body end fits in the address space (reading a frame that
/// announces more than that is refused).
pub open spec fn frame_fits(b: Seq<u8>) -> bool {
    match header_end(b) {
        None => true,
        Some(he) => match header_length(b.take(he)) {
            Some(Ok(Some(len))) => he + 4 + len <= usize::MAX,
            _ => true,
        },
    }
}

fn header_end_exec(b: &Vec<u8>) -> (r: Option<usize>)
    ensures
        match r {
            Some(i) => header_end(b@) == Some(i as int) && i + 4 <= b@.len(),
            None => header_end(b@) is None,
        },
{
    reveal(header_end);
    let n = b.len();
    if n < 4 {
        proof {
            assert forall|i: int| !blank_at(b@, i) by {}
        }
        return None;
    }
    let mut i: usize = 0;
    while i <= n - 4
        invariant
            n == b@.len(),
            n >= 4,
            i <= n - 3,
            forall|j: int| 0 <= j < i ==> !blank_at(b@, j),
        decreases n - i,
    {
        if b[i] == 13 && b[i + 1] == 10 && b[i + 2] == 13 && b[i + 3] == 10 {
            proof {
                reveal(header_end);
                assert(blank_at(b@, i as int));
                let k = choose|k: int| blank_at(b@, k) && forall|j: int| 0 <= j < k ==> !blank_at(b@, j);
                if k < i {
                    assert(!blank_at(b@, k));
                } else if k > i {
                    assert(!blank_at(b@, i as int));
                }
            }
            return Some(i);
        }
        i = i + 1;
    }
    proof {
        assert forall|j: int| !blank_at(b@, j) by {
            if 0 <= j < i {
            } else if j >= i {
                assert(!(j + 4 <= b@.len()));
            }
        }
    }
    None
}

fn header_lines_exec(s: &[char]) -> (r: Vec<Vec<char>>)
    ensures
        crate::text::views(r@) == header_lines(s@),
{
    let crlf = to_chars("\r\n");
    proof {
        reveal_strlit("\r\n");
    }
    assert(crlf@.len() == 2);
    let mut rest = slice_to_vec(s, 0, s.len());
    assert(rest@ =~= s@);
    let mut out: Vec<Vec<char>> = Vec::new();
    let mut go = true;
    while go
        invariant
            crlf@ == "\r\n"@,
            crlf@.len() == 2,
            go ==> header_lines(s@) == crate::text::views(out@) + header_lines(rest@),
            !go ==> header_lines(s@) == crate::text::views(out@),
        decreases rest@.len() + if go {
            1int
        } else {
            0int
        },
    {
        match find_exec(rest.as_slice(), crlf.as_slice()) {
            Some(i) => {
                proof {
                    crate::text::lemma_find_some(rest@, crlf@, i as int);
                }
                let rl = rest.len();
                let piece = slice_to_vec(rest.as_slice(), 0, i);
                let next = slice_to_vec(rest.as_slice(), i + 2, rl);
                assert(piece@ =~= rest@.take(i as int));
                assert(next@ =~= rest@.skip(i + 2));
                let ghost before = crate::text::views(out@);
                out.push(piece);
                assert(crate::text::views(out@) =~= before + seq![rest@.take(i as int)]);
                rest = next;
            },
            None => {
                let ghost before = crate::text::views(out@);
                let last = slice_to_vec(rest.as_slice(), 0, rest.len());
                assert(last@ =~= rest@);
                out.push(last);
                assert(crate::text::views(out@) =~= before + seq![rest@]);
                go = false;
            },
        }
    }
    out
}

fn lower_eq(a: &[char], lit: &str) -> (r: bool)
    ensures
        r == eq_ignore_case(a@, lit@),
{
    let b = to_chars(lit);
    if a.len() != b.len() {
        proof {
            if eq_ignore_case(a@, lit@) {
                assert(lower(a@).len() == lower(lit@).len());
            }
        }
        return false;
    }
    let mut i: usize = 0;
    while i < a.len()
        invariant
            i <= a@.len(),
            a@.len() == b@.len(),
            b@ == lit@,
            forall|j: int| 0 <= j < i ==> lower(a@)[j] == lower(b@)[j],
        decreases a@.len() - i,
    {
        if crate::text::lower_char_exec(a[i]) != crate::text::lower_char_exec(b[i]) {
            proof {
                if eq_ignore_case(a@, lit@) {
                    assert(lower(a@)[i as int] == lower(b@)[i as int]);
                }
            }
            return false;
        }
        i = i + 1;
    }
    assert(lower(a@) =~= lower(b@));
    true
}

fn length_exec(ls: &Vec<Vec<char>>) -> (r: Result<Option<usize>, ()>)
    ensures
        match r {
            Ok(Some(v)) => length_of(crate::text::views(ls@), None) == Ok::<Option<nat>, ()>(Some(v as nat)),
            Ok(None) => length_of(crate::text::views(ls@), None) == Ok::<Option<nat>, ()>(None),
            Err(()) => length_of(crate::text::views(ls@), None) == Err::<Option<nat>, ()>(()),
        },
{
    let ghost lv = crate::text::views(ls@);
    let mut acc: Option<usize> = None;
    let colon = vec![':'];
    assert(colon@ =~= seq![':']);
    let mut i: usize = 0;
    assert(lv.skip(0) =~= lv);
    while i < ls.len()
        invariant
            i <= ls@.len(),
            lv == crate::text::views(ls@),
            colon@ == seq![':'],
            length_of(lv, None) == length_of(
                lv.skip(i as int),
                match acc {
                    Some(v) => Some(v as nat),
                    None => None,
                },
            ),
        decreases ls@.len() - i,
    {
        let l = &ls[i];
        assert(lv.skip(i as int)[0] == l@);
        assert(lv.skip(i as int).drop_first() =~= lv.skip(i + 1));
        match find_exec(l.as_slice(), colon.as_slice()) {
            Some(c) => {
                proof {
                    crate::text::lemma_find_some(l@, colon@, c as int);
                }
                let name = slice_to_vec(l.as_slice(), 0, c);
                assert(name@ =~= l@.take(c as int));
                if lower_eq(name.as_slice(), "content-length") {
                    let ll = l.len();
                    let value = slice_to_vec(l.as_slice(), c + 1, ll);
                    assert(value@ =~= l@.skip(c + 1));
                    let t = trim_exec(value.as_slice());
                    match parse_unsigned_exec(t.as_slice(), usize::MAX as u64) {
                        Some(v) => {
                            acc = Some(v as usize);
                        },
                        None => {
                            return Err(());
                        },
                    }
                }
            },
            None => {},
        }
        i = i + 1;
    }
    Ok(acc)
}

fn header_length_exec(head: &[u8]) -> (r: Option<Result<Option<usize>, ()>>)
    ensures
        match r {
            None => header_length(head@) is None,
            Some(Err(())) => header_length(head@) == Some(Err::<Option<nat>, ()>(())),
            Some(Ok(None)) => header_length(head@) == Some(Ok::<Option<nat>, ()>(None)),
            Some(Ok(Some(v))) => header_length(head@) == Some(Ok::<Option<nat>, ()>(Some(v as nat))),
        },
{
    reveal(header_length);
    let text = match utf8_text(head) {
        None => {
            return None;
        },
        Some(t) => t,
    };
    let tc = to_chars(text.as_str());
    let ls = header_lines_exec(tc.as_slice());
    Some(length_exec(&ls))
}

/// Read one message off the front of `buf` (see `frame_of`): the body of a
/// complete message is returned and drained from the buffer; otherwise the
/// buffer is left as it was.
pub fn extract_message(buf: &mut Vec<u8>) -> (r: Result<Option<Vec<u8>>, FrameError>)
    requires
        frame_fits(old(buf)@),
    ensures
        match (r, frame_of(old(buf)@)) {
            (Ok(None), Ok(None)) => final(buf)@ == old(buf)@,
            (Ok(Some(body)), Ok(Some((s, e)))) => body@ == old(buf)@.subrange(s, e) && final(buf)@
                == old(buf)@.skip(e),
            (Err(x), Err(y)) => x == y && final(buf)@ == old(buf)@,
            _ => false,
        },
{
    let he = match header_end_exec(buf) {
        None => {
            return Ok(None);
        },
        Some(he) => he,
    };
    let head = crate::text::bytes_prefix(buf.as_slice(), he);
    let len = match header_length_exec(head.as_slice()) {
        None => {
            return Err(FrameError::BadHeader);
        },
        Some(Err(())) => {
            return Err(FrameError::BadLength);
        },
        Some(Ok(None)) => {
            return Err(FrameError::MissingLength);
        },
        Some(Ok(Some(len))) => len,
    };
    let body_start = he + 4;
    let end = body_start + len;
    if buf.len() < end {
        return Ok(None);
    }
    let body = crate::text::bytes_range(buf.as_slice(), body_start, end);
    if !json_bytes_valid(body.as_slice()) {
        return Err(FrameError::BadJson);
    }
    let rest = crate::text::bytes_range(buf.as_slice(), end, buf.len());
    assert(rest@ =~= old(buf)@.skip(end as int));
    *buf = rest;
    Ok(Some(body))
}

/// Read one message only when its announced length fits (see
/// `extract_message`); `None` when it does not, with the buffer unchanged.
pub fn extract_message_checked(buf: &mut Vec<u8>) -> (r: Option<Result<Option<Vec<u8>>, FrameError>>)
    ensures
        match r {
            None => !frame_fits(old(buf)@) && final(buf)@ == old(buf)@,
            Some(res) => frame_fits(old(buf)@) && match (res, frame_of(old(buf)@)) {
                (Ok(None), Ok(None)) => final(buf)@ == old(buf)@,
                (Ok(Some(body)), Ok(Some((s, e)))) => body@ == old(buf)@.subrange(s, e) && final(buf)@
                    == old(buf)@.skip(e),
                (Err(x), Err(y)) => x == y && final(buf)@ == old(buf)@,
                _ => false,
            },
        },
{
    if !frame_fits_exec(buf) {
        return None;
    }
    Some(extract_message(buf))
}

fn frame_fits_exec(b: &Vec<u8>) -> (r: bool)
    ensures
        r == frame_fits(b@),
{
    let he = match header_end_exec(b) {
        None => {
            return true;
        },
        Some(he) => he,
    };
    let head = crate::text::bytes_prefix(b.as_slice(), he);
    match header_length_exec(head.as_slice()) {
        Some(Ok(Some(len))) => {
            let bl = b.len();
            assert(he + 4 <= bl);
            len <= usize::MAX - he - 4
        },
        _ => true,
    }
}

/// ASCII text as bytes.
pub open spec fn ascii_bytes(s: Seq<char>) -> Seq<u8> {
    s.map_values(|c: char| (c as u32) as u8)
}

/// A framed message: `Content-Length: <n>\r\n\r\n`, then the body.
pub open spec fn frame_bytes(body: Seq<u8>) -> Seq<u8> {
    ascii_bytes("Content-Length: "@ + crate::text::decimal(body.len())) + seq![13u8, 10u8, 13u8, 10u8] + body
}

/// Frame a message body for writing (see `frame_bytes`).
pub fn frame(body: &[u8]) -> (r: Vec<u8>)
    ensures
        r@ == frame_bytes(body@),
{
    let mut head = to_chars("Content-Length: ");
    push_decimal(&mut head, body.len() as u64);
    let mut out: Vec<u8> = Vec::new();
    let mut i: usize = 0;
    while i < head.len()
        invariant
            i <= head@.len(),
            out@ == ascii_bytes(head@.take(i as int)),
        decreases head@.len() - i,
    {
        let c = head[i];
        out.push((c as u32) as u8);
        assert(ascii_bytes(head@.take(i + 1)) =~= ascii_bytes(head@.take(i as int)).push((c as u32) as u8));
        i = i + 1;
    }
    assert(head@.take(head@.len() as int) =~= head@);
    out.push(13);
    out.push(10);
    out.push(13);
    out.push(10);
    let ghost pre = out@;
    let mut j: usize = 0;
    while j < body.len()
        invariant
            j <= body@.len(),
            out@ == pre + body@.take(j as int),
        decreases body@.len() - j,
    {
        out.push(body[j]);
        assert(body@.take(j + 1) =~= body@.take(j as int).push(body@[j as int]));
        j = j + 1;
    }
    assert(body@.take(body@.len() as int) =~= body@);
    assert(out@ =~= frame_bytes(body@));
    out
}

} // verus!
