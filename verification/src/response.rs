//! The response builder and serializer: a structured response (status,
//! headers, body) and its exact wire byte sequence.
//!
//! The wire format is the status line `<protocol> <status>`, one `\r\n`-led
//! header line per header pair, then — only when the body is non-empty — a
//! blank line and the body, and always a trailing `\r\n\r\n`.

use vstd::prelude::*;
use vstd::slice::slice_to_vec;

use crate::bytes::append_bytes;
use crate::bytes::crlf;
use crate::bytes::crlf2;
use crate::bytes::dec_rep;
use crate::bytes::lemma_u8_deep;
use crate::bytes::usize_to_decimal;

verus! {

/// The status text `200 OK`.
pub open spec fn status_ok() -> Seq<u8> {
    seq![50u8, 48u8, 48u8, 32u8, 79u8, 75u8]
}

/// The status text `201 Created`.
pub open spec fn status_created() -> Seq<u8> {
    seq![50u8, 48u8, 49u8, 32u8, 67u8, 114u8, 101u8, 97u8, 116u8, 101u8, 100u8]
}

/// The status text `404 Not Found`.
pub open spec fn status_not_found() -> Seq<u8> {
    seq![52u8, 48u8, 52u8, 32u8, 78u8, 111u8, 116u8, 32u8, 70u8, 111u8, 117u8, 110u8, 100u8]
}

/// The status-line text for a supported numeric code.
pub open spec fn status_text(code: int) -> Seq<u8> {
    if code == 200 {
        status_ok()
    } else if code == 201 {
        status_created()
    } else {
        status_not_found()
    }
}

/// The header name `Content-Type`.
pub open spec fn h_content_type() -> Seq<u8> {
    seq![67u8, 111u8, 110u8, 116u8, 101u8, 110u8, 116u8, 45u8, 84u8, 121u8, 112u8, 101u8]
}

/// The header name `Content-Length`.
pub open spec fn h_content_length() -> Seq<u8> {
    seq![
        67u8,
        111u8,
        110u8,
        116u8,
        101u8,
        110u8,
        116u8,
        45u8,
        76u8,
        101u8,
        110u8,
        103u8,
        116u8,
        104u8,
    ]
}

/// The content type `text/plain`.
pub open spec fn v_text_plain() -> Seq<u8> {
    seq![116u8, 101u8, 120u8, 116u8, 47u8, 112u8, 108u8, 97u8, 105u8, 110u8]
}

/// The content type `application/octet-stream`.
pub open spec fn v_octet_stream() -> Seq<u8> {
    seq![
        97u8,
        112u8,
        112u8,
        108u8,
        105u8,
        99u8,
        97u8,
        116u8,
        105u8,
        111u8,
        110u8,
        47u8,
        111u8,
        99u8,
        116u8,
        101u8,
        116u8,
        45u8,
        115u8,
        116u8,
        114u8,
        101u8,
        97u8,
        109u8,
    ]
}

/// The `Content-Type: text/plain` and `Content-Length` pairs for a body of
/// `len` bytes.
pub open spec fn plain_text_headers(len: nat) -> Seq<(Seq<u8>, Seq<u8>)> {
    seq![(h_content_type(), v_text_plain()), (h_content_length(), dec_rep(len))]
}

/// The `Content-Type: application/octet-stream` and `Content-Length` pairs
/// for a body of `len` bytes.
pub open spec fn octet_stream_headers(len: nat) -> Seq<(Seq<u8>, Seq<u8>)> {
    seq![(h_content_type(), v_octet_stream()), (h_content_length(), dec_rep(len))]
}

/// A response, as the contracts speak of it.
#[verifier::ext_equal]
pub ghost struct ResponseModel {
    pub protocol: Seq<u8>,
    pub status: Seq<u8>,
    pub headers: Seq<(Seq<u8>, Seq<u8>)>,
    pub body: Seq<u8>,
}

/// Shorthand for a response model.
pub open spec fn resp(
    protocol: Seq<u8>,
    status: Seq<u8>,
    headers: Seq<(Seq<u8>, Seq<u8>)>,
    body: Seq<u8>,
) -> ResponseModel {
    ResponseModel { protocol, status, headers, body }
}

/// One serialized header line: `\r\n<name>: <value>`.
pub open spec fn header_line(h: (Seq<u8>, Seq<u8>)) -> Seq<u8> {
    crlf() + h.0 + seq![58u8, 32u8] + h.1
}

/// The serialized header lines, in order.
pub open spec fn header_block(hs: Seq<(Seq<u8>, Seq<u8>)>) -> Seq<u8>
    decreases hs.len(),
{
    if hs.len() == 0 {
        Seq::empty()
    } else {
        header_line(hs[0]) + header_block(hs.skip(1))
    }
}

/// The exact wire bytes of a response: the status line, the header lines, a
/// blank line and the body when the body is non-empty, and the trailing
/// `\r\n\r\n` always appended.
pub open spec fn wire(r: ResponseModel) -> Seq<u8> {
    r.protocol + seq![32u8] + r.status + header_block(r.headers) + (if r.body.len() > 0 {
        crlf2() + r.body
    } else {
        Seq::<u8>::empty()
    }) + crlf2()
}

/// Serializing one more header appends one more header line.
pub proof fn lemma_header_block_push(hs: Seq<(Seq<u8>, Seq<u8>)>, h: (Seq<u8>, Seq<u8>))
    ensures
        header_block(hs.push(h)) == header_block(hs) + header_line(h),
    decreases hs.len(),
{
    let hp = hs.push(h);
    assert(hp.len() == hs.len() + 1);
    assert(header_block(hp) == header_line(hp[0]) + header_block(hp.skip(1)));
    if hs.len() == 0 {
        assert(hp[0] == h);
        assert(hp.skip(1) =~= Seq::<(Seq<u8>, Seq<u8>)>::empty());
        assert(header_block(hp.skip(1)) == Seq::<u8>::empty());
        assert(header_line(h) + Seq::<u8>::empty() =~= header_line(h));
        assert(header_block(hs) == Seq::<u8>::empty());
        assert(header_block(hs) + header_line(h) =~= header_line(h));
    } else {
        assert(hp[0] == hs[0]);
        assert(hp.skip(1) =~= hs.skip(1).push(h));
        lemma_header_block_push(hs.skip(1), h);
        assert(header_block(hp.skip(1)) == header_block(hs.skip(1)) + header_line(h));
        assert(header_block(hs) == header_line(hs[0]) + header_block(hs.skip(1)));
        assert(header_line(hs[0]) + (header_block(hs.skip(1)) + header_line(h)) =~= (header_line(
            hs[0],
        ) + header_block(hs.skip(1))) + header_line(h));
    }
}

/// A response: protocol token, status text, header pairs, and body bytes.
pub struct HttpResponse {
    pub protocol: Vec<u8>,
    pub status: Vec<u8>,
    pub headers: Vec<(Vec<u8>, Vec<u8>)>,
    pub body: Vec<u8>,
}

impl View for HttpResponse {
    type V = ResponseModel;

    open spec fn view(&self) -> ResponseModel {
        ResponseModel {
            protocol: self.protocol@,
            status: self.status@,
            headers: self.headers.deep_view(),
            body: self.body@,
        }
    }
}

impl HttpResponse {
    /// Builds a response with the given body and protocol token, one of the
    /// three supported status codes, and no headers yet. Any other code is a
    /// programming error, not a runtime condition.
    pub fn new(body: Vec<u8>, protocol: Vec<u8>, status: u16) -> (r: HttpResponse)
        requires
            status == 200 || status == 201 || status == 404,
        ensures
            r@ == resp(protocol@, status_text(status as int), Seq::empty(), body@),
    {
        let st: Vec<u8> = if status == 200 {
            let a: [u8; 6] = [50, 48, 48, 32, 79, 75];
            let v = slice_to_vec(a.as_slice());
            proof {
                assert(v@ =~= status_ok());
            }
            v
        } else if status == 201 {
            let a: [u8; 11] = [50, 48, 49, 32, 67, 114, 101, 97, 116, 101, 100];
            let v = slice_to_vec(a.as_slice());
            proof {
                assert(v@ =~= status_created());
            }
            v
        } else {
            let a: [u8; 13] = [52, 48, 52, 32, 78, 111, 116, 32, 70, 111, 117, 110, 100];
            let v = slice_to_vec(a.as_slice());
            proof {
                assert(v@ =~= status_not_found());
            }
            v
        };
        let r = HttpResponse { protocol, status: st, headers: Vec::new(), body };
        proof {
            assert(r@ =~= resp(r.protocol@, status_text(status as int), Seq::empty(), r.body@));
        }
        r
    }

    /// Adds `Content-Type: text/plain` and the exact `Content-Length` of the
    /// body, after any headers already present.
    pub fn prepare_plain_text_headers(self) -> (r: HttpResponse)
        ensures
            r@ == resp(
                self@.protocol,
                self@.status,
                self@.headers + plain_text_headers(self@.body.len()),
                self@.body,
            ),
    {
        let mut r = self;
        let ghost h0 = r.headers.deep_view();
        let ct: [u8; 12] = [67, 111, 110, 116, 101, 110, 116, 45, 84, 121, 112, 101];
        let tp: [u8; 10] = [116, 101, 120, 116, 47, 112, 108, 97, 105, 110];
        let name = slice_to_vec(ct.as_slice());
        let value = slice_to_vec(tp.as_slice());
        proof {
            lemma_u8_deep(name);
            lemma_u8_deep(value);
            assert(name@ =~= h_content_type());
            assert(value@ =~= v_text_plain());
        }
        r.headers.push((name, value));
        let ghost h1 = r.headers.deep_view();
        proof {
            assert(h1 =~= h0.push((h_content_type(), v_text_plain())));
        }
        let cl: [u8; 14] = [67, 111, 110, 116, 101, 110, 116, 45, 76, 101, 110, 103, 116, 104];
        let cname = slice_to_vec(cl.as_slice());
        let digits = usize_to_decimal(r.body.len());
        proof {
            lemma_u8_deep(cname);
            lemma_u8_deep(digits);
            assert(cname@ =~= h_content_length());
        }
        r.headers.push((cname, digits));
        proof {
            assert(r.headers.deep_view() =~= h1.push((h_content_length(), dec_rep(r.body@.len()))));
            assert(r.headers.deep_view() =~= h0 + plain_text_headers(r.body@.len()));
        }
        r
    }

    /// Adds `Content-Type: application/octet-stream` and the exact
    /// `Content-Length` of the body, after any headers already present.
    pub fn prepare_octet_stream_headers(self) -> (r: HttpResponse)
        ensures
            r@ == resp(
                self@.protocol,
                self@.status,
                self@.headers + octet_stream_headers(self@.body.len()),
                self@.body,
            ),
    {
        let mut r = self;
        let ghost h0 = r.headers.deep_view();
        let ct: [u8; 12] = [67, 111, 110, 116, 101, 110, 116, 45, 84, 121, 112, 101];
        let os: [u8; 24] = [
            97,
            112,
            112,
            108,
            105,
            99,
            97,
            116,
            105,
            111,
            110,
            47,
            111,
            99,
            116,
            101,
            116,
            45,
            115,
            116,
            114,
            101,
            97,
            109,
        ];
        let name = slice_to_vec(ct.as_slice());
        let value = slice_to_vec(os.as_slice());
        proof {
            lemma_u8_deep(name);
            lemma_u8_deep(value);
            assert(name@ =~= h_content_type());
            assert(value@ =~= v_octet_stream());
        }
        r.headers.push((name, value));
        let ghost h1 = r.headers.deep_view();
        proof {
            assert(h1 =~= h0.push((h_content_type(), v_octet_stream())));
        }
        let cl: [u8; 14] = [67, 111, 110, 116, 101, 110, 116, 45, 76, 101, 110, 103, 116, 104];
        let cname = slice_to_vec(cl.as_slice());
        let digits = usize_to_decimal(r.body.len());
        proof {
            lemma_u8_deep(cname);
            lemma_u8_deep(digits);
            assert(cname@ =~= h_content_length());
        }
        r.headers.push((cname, digits));
        proof {
            assert(r.headers.deep_view() =~= h1.push((h_content_length(), dec_rep(r.body@.len()))));
            assert(r.headers.deep_view() =~= h0 + octet_stream_headers(r.body@.len()));
        }
        r
    }

    /// Serializes the response to its exact wire byte sequence.
    pub fn serialize(&self) -> (out: Vec<u8>)
        ensures
            out@ == wire(self@),
    {
        let mut out: Vec<u8> = Vec::new();
        append_bytes(&mut out, self.protocol.as_slice());
        out.push(32);
        append_bytes(&mut out, self.status.as_slice());
        let ghost line = self.protocol@ + seq![32u8] + self.status@;
        proof {
            assert(out@ =~= line);
            assert(self@.headers.subrange(0, 0) =~= Seq::<(Seq<u8>, Seq<u8>)>::empty());
            assert(out@ =~= line + header_block(self@.headers.subrange(0, 0)));
        }
        let crlf_a: [u8; 2] = [13, 10];
        let mut i: usize = 0;
        while i < self.headers.len()
            invariant
                i <= self.headers@.len(),
                self@.headers.len() == self.headers@.len(),
                crlf_a@ == crlf(),
                out@ == line + header_block(self@.headers.subrange(0, i as int)),
            decreases self.headers@.len() - i,
        {
            let ghost pre = out@;
            let h = &self.headers[i];
            append_bytes(&mut out, crlf_a.as_slice());
            append_bytes(&mut out, h.0.as_slice());
            out.push(58);
            out.push(32);
            append_bytes(&mut out, h.1.as_slice());
            proof {
                lemma_u8_deep(h.0);
                lemma_u8_deep(h.1);
                assert(self@.headers[i as int] == (h.0@, h.1@));
                assert(out@ =~= pre + header_line(self@.headers[i as int]));
                lemma_header_block_push(
                    self@.headers.subrange(0, i as int),
                    self@.headers[i as int],
                );
                assert(self@.headers.subrange(0, i + 1) =~= self@.headers.subrange(
                    0,
                    i as int,
                ).push(self@.headers[i as int]));
                assert(out@ =~= line + header_block(self@.headers.subrange(0, i + 1)));
            }
            i += 1;
        }
        proof {
            assert(self@.headers.subrange(0, self@.headers.len() as int) =~= self@.headers);
        }
        let crlf2_a: [u8; 4] = [13, 10, 13, 10];
        proof {
            assert(crlf2_a@ =~= crlf2());
        }
        let ghost before_body = out@;
        if self.body.len() > 0 {
            append_bytes(&mut out, crlf2_a.as_slice());
            append_bytes(&mut out, self.body.as_slice());
            proof {
                assert(out@ =~= before_body + (crlf2() + self.body@));
            }
        } else {
            proof {
                assert(out@ =~= before_body + Seq::<u8>::empty());
            }
        }
        append_bytes(&mut out, crlf2_a.as_slice());
        proof {
            assert(out@ =~= wire(self@));
        }
        out
    }
}

} // verus!
