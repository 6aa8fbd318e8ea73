//! The router: pure dispatch over the request's method and path, first match
//! wins.
//!
//! Routes that need no filesystem produce their response directly. The two
//! `/files/<name>` routes decide an action — read or write that file — and a
//! companion function turns the outcome of the filesystem work into the
//! response, so the caller performs only the I/O itself.

use vstd::prelude::*;

use crate::bytes::bytes_eq;
use crate::bytes::copy_range;
use crate::bytes::has_prefix;
use crate::bytes::lemma_u8_deep;
use crate::bytes::starts_with;
use crate::request::header_lookup;
use crate::request::is_ascii_bytes;
use crate::request::lossy_of;
use crate::request::parse_ok;
use crate::request::parsed;
use crate::request::HttpRequest;
use crate::request::RequestModel;
use crate::response::octet_stream_headers;
use crate::response::plain_text_headers;
use crate::response::resp;
use crate::response::status_created;
use crate::response::status_not_found;
use crate::response::status_ok;
use crate::response::HttpResponse;
use crate::response::ResponseModel;

verus! {

/// The method token `GET`.
pub open spec fn verb_get() -> Seq<u8> {
    seq![71u8, 69u8, 84u8]
}

/// The method token `POST`.
pub open spec fn verb_post() -> Seq<u8> {
    seq![80u8, 79u8, 83u8, 84u8]
}

/// The root path `/`.
pub open spec fn path_root() -> Seq<u8> {
    seq![47u8]
}

/// The path prefix `/echo/`.
pub open spec fn echo_prefix() -> Seq<u8> {
    seq![47u8, 101u8, 99u8, 104u8, 111u8, 47u8]
}

/// The path `/user-agent`.
pub open spec fn path_user_agent() -> Seq<u8> {
    seq![47u8, 117u8, 115u8, 101u8, 114u8, 45u8, 97u8, 103u8, 101u8, 110u8, 116u8]
}

/// The path prefix `/files/`.
pub open spec fn files_prefix() -> Seq<u8> {
    seq![47u8, 102u8, 105u8, 108u8, 101u8, 115u8, 47u8]
}

/// The header name `User-Agent`.
pub open spec fn h_user_agent() -> Seq<u8> {
    seq![85u8, 115u8, 101u8, 114u8, 45u8, 65u8, 103u8, 101u8, 110u8, 116u8]
}

/// What a routed request asks its caller to do, as the contracts speak of it.
#[verifier::ext_equal]
pub ghost enum ActionModel {
    /// A finished response, ready to serialize.
    Respond(ResponseModel),
    /// Read the named file under the serving directory, then complete with
    /// `file_read_spec`.
    ReadFile { name: Seq<u8>, protocol: Seq<u8> },
    /// Write `contents` to the named file under the serving directory, then
    /// complete with `file_write_spec`.
    WriteFile { name: Seq<u8>, contents: Seq<u8>, protocol: Seq<u8> },
    /// `GET /user-agent` without a `User-Agent` header: a fault of this
    /// request; no response is sent and the connection is dropped.
    MissingUserAgent,
}

/// What a routed request asks its caller to do.
pub enum RouteAction {
    /// A finished response, ready to serialize.
    Respond(HttpResponse),
    /// Read the named file under the serving directory, then complete with
    /// `file_read_response`.
    ReadFile { name: Vec<u8>, protocol: Vec<u8> },
    /// Write `contents` to the named file under the serving directory, then
    /// complete with `file_write_response`.
    WriteFile { name: Vec<u8>, contents: Vec<u8>, protocol: Vec<u8> },
    /// `GET /user-agent` without a `User-Agent` header: a fault of this
    /// request; no response is sent and the connection is dropped.
    MissingUserAgent,
}

impl View for RouteAction {
    type V = ActionModel;

    open spec fn view(&self) -> ActionModel {
        match self {
            RouteAction::Respond(r) => ActionModel::Respond(r@),
            RouteAction::ReadFile { name, protocol } => ActionModel::ReadFile {
                name: name@,
                protocol: protocol@,
            },
            RouteAction::WriteFile { name, contents, protocol } => ActionModel::WriteFile {
                name: name@,
                contents: contents@,
                protocol: protocol@,
            },
            RouteAction::MissingUserAgent => ActionModel::MissingUserAgent,
        }
    }
}

/// The route table: the recognized method/path forms in priority order, and
/// the 404 fallback for everything else.
pub open spec fn route_spec(req: RequestModel) -> ActionModel {
    if req.verb == verb_get() && req.path == path_root() {
        ActionModel::Respond(resp(req.protocol, status_ok(), Seq::empty(), Seq::empty()))
    } else if req.verb == verb_get() && has_prefix(req.path, echo_prefix()) {
        let text = req.path.skip(echo_prefix().len() as int);
        ActionModel::Respond(resp(req.protocol, status_ok(), plain_text_headers(text.len()), text))
    } else if req.verb == verb_get() && req.path == path_user_agent() {
        match header_lookup(req.headers, h_user_agent()) {
            Some(v) => ActionModel::Respond(
                resp(req.protocol, status_ok(), plain_text_headers(v.len()), v),
            ),
            None => ActionModel::MissingUserAgent,
        }
    } else if req.verb == verb_get() && has_prefix(req.path, files_prefix()) {
        ActionModel::ReadFile {
            name: req.path.skip(files_prefix().len() as int),
            protocol: req.protocol,
        }
    } else if req.verb == verb_post() && has_prefix(req.path, files_prefix()) {
        ActionModel::WriteFile {
            name: req.path.skip(files_prefix().len() as int),
            contents: req.body,
            protocol: req.protocol,
        }
    } else {
        ActionModel::Respond(resp(req.protocol, status_not_found(), Seq::empty(), Seq::empty()))
    }
}

/// Does the request match one of the recognized routes? Everything else is
/// answered 404 with an empty body.
pub open spec fn recognized(req: RequestModel) -> bool {
    (req.verb == verb_get() && (req.path == path_root() || has_prefix(req.path, echo_prefix())
        || req.path == path_user_agent() || has_prefix(req.path, files_prefix()))) || (req.verb
        == verb_post() && has_prefix(req.path, files_prefix()))
}

/// The value of the request's last header named `name`, if any.
fn lookup_header(hs: &Vec<(Vec<u8>, Vec<u8>)>, name: &[u8]) -> (r: Option<Vec<u8>>)
    ensures
        match r {
            Some(v) => header_lookup(hs.deep_view(), name@) == Some(v@),
            None => header_lookup(hs.deep_view(), name@) is None,
        },
{
    let mut i: usize = hs.len();
    proof {
        assert(hs.deep_view().subrange(0, i as int) =~= hs.deep_view());
    }
    while i > 0
        invariant
            i <= hs@.len(),
            hs@.len() == hs.deep_view().len(),
            header_lookup(hs.deep_view(), name@) == header_lookup(
                hs.deep_view().subrange(0, i as int),
                name@,
            ),
        decreases i,
    {
        i -= 1;
        let ghost pre = hs.deep_view().subrange(0, i + 1);
        proof {
            lemma_u8_deep(hs@[i as int].0);
            lemma_u8_deep(hs@[i as int].1);
            assert(pre.last() == hs.deep_view()[i as int]);
            assert(pre.drop_last() =~= hs.deep_view().subrange(0, i as int));
        }
        let h = &hs[i];
        if bytes_eq(h.0.as_slice(), name) {
            let v = copy_range(h.1.as_slice(), 0, h.1.len());
            proof {
                assert(v@ =~= h.1@);
                assert(header_lookup(pre, name@) == Some(h.1@));
            }
            return Some(v);
        }
    }
    proof {
        assert(hs.deep_view().subrange(0, 0) =~= Seq::<(Seq<u8>, Seq<u8>)>::empty());
    }
    None
}

/// Routes a parsed request, first match wins, 404 for everything unrecognized.
pub fn route(req: HttpRequest) -> (a: RouteAction)
    ensures
        a@ == route_spec(req@),
{
    let g: [u8; 3] = [71, 69, 84];
    let p: [u8; 4] = [80, 79, 83, 84];
    let root: [u8; 1] = [47];
    let echo: [u8; 6] = [47, 101, 99, 104, 111, 47];
    let ua_path: [u8; 11] = [47, 117, 115, 101, 114, 45, 97, 103, 101, 110, 116];
    let files: [u8; 7] = [47, 102, 105, 108, 101, 115, 47];
    let ua_name: [u8; 10] = [85, 115, 101, 114, 45, 65, 103, 101, 110, 116];
    proof {
        assert(g@ =~= verb_get());
        assert(p@ =~= verb_post());
        assert(root@ =~= path_root());
        assert(echo@ =~= echo_prefix());
        assert(ua_path@ =~= path_user_agent());
        assert(files@ =~= files_prefix());
        assert(ua_name@ =~= h_user_agent());
    }
    let is_get = bytes_eq(req.verb.as_slice(), g.as_slice());
    let is_post = bytes_eq(req.verb.as_slice(), p.as_slice());
    if is_get && bytes_eq(req.path.as_slice(), root.as_slice()) {
        let r = HttpResponse::new(Vec::new(), req.protocol, 200);
        proof {
            assert(r@ =~= resp(req.protocol@, status_ok(), Seq::empty(), Seq::empty()));
        }
        RouteAction::Respond(r)
    } else if is_get && starts_with(req.path.as_slice(), echo.as_slice()) {
        let text = copy_range(req.path.as_slice(), 6, req.path.len());
        proof {
            assert(text@ =~= req.path@.skip(echo_prefix().len() as int));
        }
        let r = HttpResponse::new(text, req.protocol, 200).prepare_plain_text_headers();
        proof {
            assert(r@ =~= resp(
                req.protocol@,
                status_ok(),
                plain_text_headers(req.path@.skip(echo_prefix().len() as int).len()),
                req.path@.skip(echo_prefix().len() as int),
            ));
        }
        RouteAction::Respond(r)
    } else if is_get && bytes_eq(req.path.as_slice(), ua_path.as_slice()) {
        match lookup_header(&req.headers, ua_name.as_slice()) {
            Some(v) => {
                let ghost vv = v@;
                let r = HttpResponse::new(v, req.protocol, 200).prepare_plain_text_headers();
                proof {
                    assert(r@ =~= resp(
                        req.protocol@,
                        status_ok(),
                        plain_text_headers(vv.len()),
                        vv,
                    ));
                }
                RouteAction::Respond(r)
            },
            None => RouteAction::MissingUserAgent,
        }
    } else if is_get && starts_with(req.path.as_slice(), files.as_slice()) {
        let name = copy_range(req.path.as_slice(), 7, req.path.len());
        proof {
            assert(name@ =~= req.path@.skip(files_prefix().len() as int));
        }
        RouteAction::ReadFile { name, protocol: req.protocol }
    } else if is_post && starts_with(req.path.as_slice(), files.as_slice()) {
        let name = copy_range(req.path.as_slice(), 7, req.path.len());
        proof {
            assert(name@ =~= req.path@.skip(files_prefix().len() as int));
        }
        RouteAction::WriteFile { name, contents: req.body, protocol: req.protocol }
    } else {
        let r = HttpResponse::new(Vec::new(), req.protocol, 404);
        proof {
            assert(r@ =~= resp(req.protocol@, status_not_found(), Seq::empty(), Seq::empty()));
        }
        RouteAction::Respond(r)
    }
}

/// The response completing `GET /files/<name>`: the full contents with status
/// 200 and octet-stream headers when the file exists, 404 with an empty body
/// when it does not.
pub open spec fn file_read_spec(protocol: Seq<u8>, contents: Option<Seq<u8>>) -> ResponseModel {
    match contents {
        Some(b) => resp(protocol, status_ok(), octet_stream_headers(b.len()), b),
        None => resp(protocol, status_not_found(), Seq::empty(), Seq::empty()),
    }
}

/// Completes `GET /files/<name>` once the caller has looked the file up:
/// `contents` is the file's full bytes, or `None` when it does not exist.
pub fn file_read_response(protocol: Vec<u8>, contents: Option<Vec<u8>>) -> (r: HttpResponse)
    ensures
        r@ == file_read_spec(protocol@, contents.deep_view()),
{
    match contents {
        Some(b) => {
            proof {
                lemma_u8_deep(b);
            }
            let ghost bb = b@;
            let r = HttpResponse::new(b, protocol, 200).prepare_octet_stream_headers();
            proof {
                assert(r@ =~= resp(protocol@, status_ok(), octet_stream_headers(bb.len()), bb));
            }
            r
        },
        None => {
            let r = HttpResponse::new(Vec::new(), protocol, 404);
            proof {
                assert(r@ =~= resp(protocol@, status_not_found(), Seq::empty(), Seq::empty()));
            }
            r
        },
    }
}

/// The response completing `POST /files/<name>`: 201 Created with an empty
/// body, whether or not the write succeeded.
pub open spec fn file_write_spec(protocol: Seq<u8>) -> ResponseModel {
    resp(protocol, status_created(), Seq::empty(), Seq::empty())
}

/// Completes `POST /files/<name>` once the caller has attempted the write.
/// Write failures are swallowed: the route reports success regardless.
pub fn file_write_response(protocol: Vec<u8>) -> (r: HttpResponse)
    ensures
        r@ == file_write_spec(protocol@),
{
    let r = HttpResponse::new(Vec::new(), protocol, 201);
    proof {
        assert(r@ =~= file_write_spec(protocol@));
    }
    r
}

/// The whole decision for one connection's buffer: decode, parse, route.
/// `None` is a parse error: no response is sent, the connection is dropped.
/// A pure-ASCII buffer is decided exactly as it stands.
pub fn handle(buf: &[u8]) -> (r: Option<RouteAction>)
    ensures
        r is Some <==> parse_ok(lossy_of(buf@)),
        r is Some ==> r->0@ == route_spec(parsed(lossy_of(buf@))),
        is_ascii_bytes(buf@) ==> lossy_of(buf@) == buf@,
{
    match HttpRequest::from_byte_array(buf) {
        Some(req) => Some(route(req)),
        None => None,
    }
}

} // verus!
