//! The request parser: turns the raw bytes read from a connection into a
//! structured request (method, path, protocol version, headers, body).
//!
//! The buffer is decoded as UTF-8 with lossy replacement, the head (everything
//! before the first blank line `\r\n\r\n`) is tokenized on whitespace, the
//! first three tokens become method, path and protocol version, and the
//! remaining tokens are consumed pairwise as header name/value pairs (the
//! name's trailing colon stripped, an unpaired trailing token dropped). The
//! bytes after the blank line are the body, unparsed. A head with fewer than
//! three tokens is a parse error, never a default-substituted request.

use vstd::prelude::*;

use crate::bytes::copy_range;
use crate::bytes::crlf2;
use crate::bytes::lemma_u8_deep;

verus! {

/// Is byte `b` ASCII whitespace (the whitespace bytes the tokenizer splits on)?
pub open spec fn is_ws(b: u8) -> bool {
    b == 32 || b == 9 || b == 10 || b == 13 || b == 11 || b == 12
}

/// Does the blank-line separator `\r\n\r\n` stand at index `i` of `s`?
pub open spec fn sep_at(s: Seq<u8>, i: int) -> bool {
    0 <= i && i + 4 <= s.len() && s.subrange(i, i + 4) == crlf2()
}

/// The index of the first blank-line separator at or after `i`, if any.
pub open spec fn find_sep_from(s: Seq<u8>, i: int) -> Option<int>
    decreases s.len() - i,
{
    if i < 0 || i + 4 > s.len() {
        None
    } else if sep_at(s, i) {
        Some(i)
    } else {
        find_sep_from(s, i + 1)
    }
}

/// The head of the buffer: everything before the first blank-line separator,
/// or the whole buffer when no separator occurs.
pub open spec fn head_of(data: Seq<u8>) -> Seq<u8> {
    match find_sep_from(data, 0) {
        Some(i) => data.subrange(0, i),
        None => data,
    }
}

/// The body of the buffer: everything after the first blank-line separator,
/// or empty when no separator occurs.
pub open spec fn body_of(data: Seq<u8>) -> Seq<u8> {
    match find_sep_from(data, 0) {
        Some(i) => data.subrange(i + 4, data.len() as int),
        None => Seq::empty(),
    }
}

/// The index just past the whitespace-free run that starts at `i`: the first
/// index at or after `i` holding whitespace, or `s.len()` if none does.
pub open spec fn token_end(s: Seq<u8>, i: int) -> int
    decreases s.len() - i,
{
    if i < 0 || i >= s.len() {
        s.len() as int
    } else if is_ws(s[i]) {
        i
    } else {
        token_end(s, i + 1)
    }
}

/// `token_end` stays within `(i, s.len()]` on a non-whitespace byte, the run
/// it delimits is whitespace-free, and it stops only at whitespace or the end.
pub proof fn lemma_token_end(s: Seq<u8>, i: int)
    requires
        0 <= i <= s.len(),
    ensures
        i <= token_end(s, i) <= s.len(),
        i < s.len() && !is_ws(s[i]) ==> token_end(s, i) > i,
        forall|j: int| i <= j < token_end(s, i) ==> !is_ws(s[j]),
        token_end(s, i) < s.len() ==> is_ws(s[token_end(s, i)]),
    decreases s.len() - i,
{
    if i < s.len() && !is_ws(s[i]) {
        lemma_token_end(s, i + 1);
    }
}

/// The whitespace-separated tokens of `s` at or after index `i`, in order.
pub open spec fn tokens_from(s: Seq<u8>, i: int) -> Seq<Seq<u8>>
    decreases s.len() - i,
    when 0 <= i <= s.len()
    via tokens_from_decreases
{
    if i >= s.len() {
        seq![]
    } else if is_ws(s[i]) {
        tokens_from(s, i + 1)
    } else {
        seq![s.subrange(i, token_end(s, i))] + tokens_from(s, token_end(s, i))
    }
}

#[via_fn]
proof fn tokens_from_decreases(s: Seq<u8>, i: int) {
    if 0 <= i < s.len() && !is_ws(s[i]) {
        lemma_token_end(s, i);
    }
}

/// The whitespace-separated tokens of `s`, in order.
pub open spec fn tokens(s: Seq<u8>) -> Seq<Seq<u8>> {
    tokens_from(s, 0)
}

/// A header-name token with its trailing colon stripped.
pub open spec fn strip_colon(t: Seq<u8>) -> Seq<u8> {
    if t.len() > 0 && t.last() == 58 {
        t.drop_last()
    } else {
        t
    }
}

/// The header pairs among the tokens that follow the request line: tokens are
/// consumed pairwise as name (trailing colon stripped) and value; an unpaired
/// trailing token is dropped.
pub open spec fn header_pairs(ts: Seq<Seq<u8>>) -> Seq<(Seq<u8>, Seq<u8>)>
    decreases ts.len(),
{
    if ts.len() < 2 {
        seq![]
    } else {
        seq![(strip_colon(ts[0]), ts[1])] + header_pairs(ts.skip(2))
    }
}

/// The value of the last header pair named `name`, if any. Later pairs win,
/// as repeated insertion into a map would have it.
pub open spec fn header_lookup(hs: Seq<(Seq<u8>, Seq<u8>)>, name: Seq<u8>) -> Option<Seq<u8>>
    decreases hs.len(),
{
    if hs.len() == 0 {
        None
    } else if hs.last().0 == name {
        Some(hs.last().1)
    } else {
        header_lookup(hs.drop_last(), name)
    }
}

/// A parsed request, as the contracts speak of it.
#[verifier::ext_equal]
pub ghost struct RequestModel {
    pub verb: Seq<u8>,
    pub path: Seq<u8>,
    pub protocol: Seq<u8>,
    pub headers: Seq<(Seq<u8>, Seq<u8>)>,
    pub body: Seq<u8>,
}

/// Does the buffer parse: does its head hold at least the three mandatory
/// request-line tokens?
pub open spec fn parse_ok(data: Seq<u8>) -> bool {
    tokens(head_of(data)).len() >= 3
}

/// The request a well-formed buffer parses to.
pub open spec fn parsed(data: Seq<u8>) -> RequestModel {
    let ts = tokens(head_of(data));
    RequestModel {
        verb: ts[0],
        path: ts[1],
        protocol: ts[2],
        headers: header_pairs(ts.skip(3)),
        body: body_of(data),
    }
}

/// A parsed request: the three request-line tokens, the header pairs, and the
/// raw body bytes.
pub struct HttpRequest {
    pub verb: Vec<u8>,
    pub path: Vec<u8>,
    pub protocol: Vec<u8>,
    pub headers: Vec<(Vec<u8>, Vec<u8>)>,
    pub body: Vec<u8>,
}

impl View for HttpRequest {
    type V = RequestModel;

    open spec fn view(&self) -> RequestModel {
        RequestModel {
            verb: self.verb@,
            path: self.path@,
            protocol: self.protocol@,
            headers: self.headers.deep_view(),
            body: self.body@,
        }
    }
}

/// Is byte `b` ASCII whitespace? Executable twin of `is_ws`.
fn is_ws_byte(b: u8) -> (r: bool)
    ensures
        r == is_ws(b),
{
    b == 32 || b == 9 || b == 10 || b == 13 || b == 11 || b == 12
}

/// `token_end(s, i)` equals `e` when `s[i..e]` is whitespace-free and `e` is
/// the end of `s` or holds whitespace.
pub proof fn lemma_token_end_is(s: Seq<u8>, i: int, e: int)
    requires
        0 <= i <= e <= s.len(),
        forall|k: int| i <= k < e ==> !is_ws(s[k]),
        e == s.len() || is_ws(s[e]),
    ensures
        token_end(s, i) == e,
    decreases e - i,
{
    if i < e {
        lemma_token_end_is(s, i + 1, e);
    }
}

/// The index of the first blank-line separator in `a`, if any.
fn find_separator(a: &[u8]) -> (r: Option<usize>)
    ensures
        match r {
            Some(i) => find_sep_from(a@, 0) == Some(i as int) && i + 4 <= a@.len(),
            None => find_sep_from(a@, 0) is None,
        },
{
    let n = a.len();
    let mut i: usize = 0;
    while n >= 4 && i <= n - 4
        invariant
            n == a@.len(),
            i <= a@.len(),
            find_sep_from(a@, 0) == find_sep_from(a@, i as int),
        decreases a@.len() - i,
    {
        if a[i] == 13 && a[i + 1] == 10 && a[i + 2] == 13 && a[i + 3] == 10 {
            proof {
                assert(a@.subrange(i as int, i + 4) =~= crlf2());
            }
            return Some(i);
        }
        proof {
            if sep_at(a@, i as int) {
                assert(a@.subrange(i as int, i + 4)[0] == a@[i as int]);
                assert(a@.subrange(i as int, i + 4)[1] == a@[i + 1]);
                assert(a@.subrange(i as int, i + 4)[2] == a@[i + 2]);
                assert(a@.subrange(i as int, i + 4)[3] == a@[i + 3]);
                assert(false);
            }
        }
        i += 1;
    }
    None
}

/// The whitespace-separated tokens of `a`, exactly as `tokens` lists them.
fn tokenize(a: &[u8]) -> (r: Vec<Vec<u8>>)
    ensures
        r.deep_view() == tokens(a@),
{
    let mut r: Vec<Vec<u8>> = Vec::new();
    let mut i: usize = 0;
    proof {
        assert(r.deep_view() + tokens_from(a@, 0) =~= tokens(a@));
    }
    while i < a.len()
        invariant
            i <= a@.len(),
            tokens(a@) == r.deep_view() + tokens_from(a@, i as int),
        decreases a@.len() - i,
    {
        if is_ws_byte(a[i]) {
            i += 1;
        } else {
            let start = i;
            while i < a.len() && !is_ws_byte(a[i])
                invariant
                    start <= i <= a@.len(),
                    forall|k: int| start <= k < i ==> !is_ws(a@[k]),
                decreases a@.len() - i,
            {
                i += 1;
            }
            proof {
                lemma_token_end_is(a@, start as int, i as int);
            }
            let ghost r0 = r.deep_view();
            let tok = copy_range(a, start, i);
            r.push(tok);
            proof {
                lemma_u8_deep(tok);
                assert(r.deep_view() =~= r0.push(tok@));
                assert(tokens_from(a@, start as int) == seq![a@.subrange(start as int, i as int)]
                    + tokens_from(a@, i as int));
                assert(r0.push(tok@) + tokens_from(a@, i as int) =~= r0 + tokens_from(
                    a@,
                    start as int,
                ));
            }
        }
    }
    proof {
        assert(r.deep_view() + tokens_from(a@, a@.len() as int) =~= r.deep_view());
    }
    r
}

/// What `String::from_utf8_lossy` makes of a byte sequence: the UTF-8 bytes of
/// its decoding, with each invalid sequence replaced.
pub uninterp spec fn lossy_of(b: Seq<u8>) -> Seq<u8>;

/// Is every byte of `s` ASCII?
pub open spec fn is_ascii_bytes(s: Seq<u8>) -> bool {
    forall|i: int| 0 <= i < s.len() ==> s[i] < 128
}

/// Relies on `String::from_utf8_lossy`: the result depends on the input bytes
/// alone, and input that is already valid UTF-8 (in particular, pure ASCII)
/// comes back unchanged.
#[verifier::external_body]
fn utf8_lossy(b: &[u8]) -> (r: Vec<u8>)
    ensures
        r@ == lossy_of(b@),
        is_ascii_bytes(b@) ==> r@ == b@,
{
    String::from_utf8_lossy(b).into_owned().into_bytes()
}

impl HttpRequest {
    /// Parses a buffer of already-decoded bytes into a request, or reports a
    /// parse error when the head holds fewer than three tokens.
    pub fn parse(data: &[u8]) -> (r: Option<HttpRequest>)
        ensures
            r is Some <==> parse_ok(data@),
            r is Some ==> r->0@ == parsed(data@),
    {
        let sep = find_separator(data);
        let head: Vec<u8>;
        let body: Vec<u8>;
        match sep {
            Some(i) => {
                let n = data.len();
                head = copy_range(data, 0, i);
                body = copy_range(data, i + 4, n);
            },
            None => {
                head = copy_range(data, 0, data.len());
                body = Vec::new();
                proof {
                    assert(head@ =~= head_of(data@));
                    assert(body@ =~= body_of(data@));
                }
            },
        }
        assert(head@ == head_of(data@));
        assert(body@ == body_of(data@));

        let mut ts = tokenize(head.as_slice());
        let ghost all = tokens(head_of(data@));
        if ts.len() < 3 {
            return None;
        }
        let ghost d0 = ts.deep_view();
        let verb = ts.remove(0);
        proof {
            assert(ts.deep_view() =~= d0.skip(1));
        }
        let ghost d1 = ts.deep_view();
        let path = ts.remove(0);
        proof {
            assert(ts.deep_view() =~= d1.skip(1));
        }
        let ghost d2 = ts.deep_view();
        let protocol = ts.remove(0);
        proof {
            assert(ts.deep_view() =~= d2.skip(1));
            assert(ts.deep_view() =~= all.skip(3));
            lemma_u8_deep(verb);
            lemma_u8_deep(path);
            lemma_u8_deep(protocol);
            assert(verb@ == all[0] && path@ == all[1] && protocol@ == all[2]);
        }

        let mut headers: Vec<(Vec<u8>, Vec<u8>)> = Vec::new();
        let ghost rest = ts.deep_view();
        proof {
            assert(headers.deep_view() + header_pairs(rest) =~= header_pairs(rest));
        }
        while ts.len() >= 2
            invariant
                header_pairs(rest) == headers.deep_view() + header_pairs(ts.deep_view()),
            decreases ts@.len(),
        {
            let ghost cur = ts.deep_view();
            let ghost h0 = headers.deep_view();
            let mut name = ts.remove(0);
            let ghost c1 = ts.deep_view();
            let value = ts.remove(0);
            proof {
                assert(c1 =~= cur.skip(1));
                assert(ts.deep_view() =~= c1.skip(1));
                assert(ts.deep_view() =~= cur.skip(2));
                lemma_u8_deep(name);
                lemma_u8_deep(value);
                assert(name@ == cur[0] && value@ == cur[1]);
            }
            let ghost name0 = name@;
            if name.len() > 0 && name[name.len() - 1] == 58 {
                name.pop();
                proof {
                    assert(name@ == strip_colon(name0));
                }
            }
            proof {
                lemma_u8_deep(name);
            }
            assert(name@ == strip_colon(cur[0]));
            headers.push((name, value));
            proof {
                assert(headers.deep_view() =~= h0.push((strip_colon(cur[0]), cur[1])));
                assert(header_pairs(cur) == seq![(strip_colon(cur[0]), cur[1])] + header_pairs(
                    cur.skip(2),
                ));
                assert(h0.push((strip_colon(cur[0]), cur[1])) + header_pairs(cur.skip(2)) =~= h0
                    + header_pairs(cur));
            }
        }
        proof {
            assert(header_pairs(ts.deep_view()) =~= Seq::<(Seq<u8>, Seq<u8>)>::empty());
            assert(headers.deep_view() + Seq::<(Seq<u8>, Seq<u8>)>::empty() =~= headers.deep_view());
        }

        let req = HttpRequest { verb, path, protocol, headers, body };
        proof {
            assert(req@ =~= parsed(data@));
        }
        Some(req)
    }

    /// Parses the raw bytes read from a connection: the buffer is decoded as
    /// UTF-8 with lossy replacement, then parsed. A pure-ASCII buffer is
    /// parsed exactly as it stands.
    pub fn from_byte_array(buf: &[u8]) -> (r: Option<HttpRequest>)
        ensures
            r is Some <==> parse_ok(lossy_of(buf@)),
            r is Some ==> r->0@ == parsed(lossy_of(buf@)),
            is_ascii_bytes(buf@) ==> lossy_of(buf@) == buf@,
    {
        let data = utf8_lossy(buf);
        HttpRequest::parse(data.as_slice())
    }
}

} // verus!
