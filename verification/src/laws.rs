//! The laws of the protocol core, each stated over the same spec functions
//! the executable functions' contracts use, and proved once and for all.

use vstd::prelude::*;

use crate::bytes::crlf;
use crate::bytes::crlf2;
use crate::bytes::has_prefix;
use crate::request::body_of;
use crate::request::find_sep_from;
use crate::request::head_of;
use crate::request::header_lookup;
use crate::request::header_pairs;
use crate::request::is_ws;
use crate::request::lemma_token_end_is;
use crate::request::parse_ok;
use crate::request::parsed;
use crate::request::sep_at;
use crate::request::strip_colon;
use crate::request::tokens;
use crate::request::tokens_from;
use crate::request::RequestModel;
use crate::response::header_block;
use crate::response::header_line;
use crate::response::octet_stream_headers;
use crate::response::plain_text_headers;
use crate::response::resp;
use crate::response::status_not_found;
use crate::response::status_ok;
use crate::response::wire;
use crate::router::echo_prefix;
use crate::router::file_read_spec;
use crate::router::files_prefix;
use crate::router::h_user_agent;
use crate::router::path_root;
use crate::router::path_user_agent;
use crate::router::recognized;
use crate::router::route_spec;
use crate::router::verb_get;
use crate::router::verb_post;
use crate::router::ActionModel;

verus! {

/// Every `GET /` request routes to a response with status 200, an empty body
/// and no headers at all.
pub proof fn lemma_root_route(req: RequestModel)
    requires
        req.verb == verb_get(),
        req.path == path_root(),
    ensures
        route_spec(req) == ActionModel::Respond(
            resp(req.protocol, status_ok(), Seq::empty(), Seq::empty()),
        ),
{
}

/// Every `GET /echo/<s>` request routes to a response whose body is exactly
/// `s`, with `Content-Type: text/plain` and `Content-Length` the byte length
/// of `s`.
pub proof fn lemma_echo_route(req: RequestModel, s: Seq<u8>)
    requires
        req.verb == verb_get(),
        req.path == echo_prefix() + s,
    ensures
        route_spec(req) == ActionModel::Respond(
            resp(req.protocol, status_ok(), plain_text_headers(s.len()), s),
        ),
{
    assert(req.path.len() == 6 + s.len());
    assert(req.path != path_root()) by {
        assert(path_root().len() == 1);
    }
    assert(has_prefix(req.path, echo_prefix())) by {
        assert(req.path.subrange(0, 6) =~= echo_prefix());
    }
    assert(req.path.skip(6) =~= s);
}

/// Every `GET /user-agent` request whose `User-Agent` header is present
/// routes to a response whose body is exactly that header's value.
pub proof fn lemma_user_agent_route(req: RequestModel, v: Seq<u8>)
    requires
        req.verb == verb_get(),
        req.path == path_user_agent(),
        header_lookup(req.headers, h_user_agent()) == Some(v),
    ensures
        route_spec(req) == ActionModel::Respond(
            resp(req.protocol, status_ok(), plain_text_headers(v.len()), v),
        ),
{
    assert(req.path != path_root()) by {
        assert(path_user_agent().len() == 11 && path_root().len() == 1);
    }
    assert(!has_prefix(req.path, echo_prefix())) by {
        if has_prefix(req.path, echo_prefix()) {
            assert(req.path.subrange(0, 6)[1] == req.path[1]);
            assert(path_user_agent()[1] == 117u8 && echo_prefix()[1] == 101u8);
            assert(false);
        }
    }
}

/// The files round trip: a `POST /files/<name>` with body `B` asks for
/// exactly `B` to be written under `name`, a `GET /files/<name>` asks for
/// `name` to be read, and completing that read with contents `B` gives status
/// 200, body exactly `B`, and `Content-Type: application/octet-stream`.
pub proof fn lemma_files_round_trip(post: RequestModel, get: RequestModel, name: Seq<u8>)
    requires
        post.verb == verb_post(),
        post.path == files_prefix() + name,
        get.verb == verb_get(),
        get.path == files_prefix() + name,
    ensures
        route_spec(post) == (ActionModel::WriteFile {
            name,
            contents: post.body,
            protocol: post.protocol,
        }),
        route_spec(get) == (ActionModel::ReadFile { name, protocol: get.protocol }),
        file_read_spec(get.protocol, Some(post.body)) == resp(
            get.protocol,
            status_ok(),
            octet_stream_headers(post.body.len()),
            post.body,
        ),
{
    lemma_files_path_routes_only_files(post.path, name);
    assert(post.verb != verb_get()) by {
        assert(verb_post().len() == 4 && verb_get().len() == 3);
    }
    assert(post.path.skip(7) =~= name);
    assert(get.path.skip(7) =~= name);
}

/// A `GET /files/<name>` whose file does not exist completes to status 404
/// with an empty body.
pub proof fn lemma_missing_file(get: RequestModel, name: Seq<u8>)
    requires
        get.verb == verb_get(),
        get.path == files_prefix() + name,
    ensures
        route_spec(get) == (ActionModel::ReadFile { name, protocol: get.protocol }),
        file_read_spec(get.protocol, None) == resp(
            get.protocol,
            status_not_found(),
            Seq::empty(),
            Seq::empty(),
        ),
{
    lemma_files_path_routes_only_files(get.path, name);
    assert(get.path.skip(7) =~= name);
}

/// A path of the form `/files/<name>` matches no earlier route: it is not the
/// root, has no echo prefix, and is not the user-agent path.
proof fn lemma_files_path_routes_only_files(path: Seq<u8>, name: Seq<u8>)
    requires
        path == files_prefix() + name,
    ensures
        path != path_root(),
        !has_prefix(path, echo_prefix()),
        path != path_user_agent(),
        has_prefix(path, files_prefix()),
{
    assert(path.len() == 7 + name.len());
    assert(path != path_root()) by {
        assert(path_root().len() == 1);
    }
    assert(path[1] == 102u8);
    assert(!has_prefix(path, echo_prefix())) by {
        if has_prefix(path, echo_prefix()) {
            assert(path.subrange(0, 6)[1] == path[1]);
            assert(echo_prefix()[1] == 101u8);
            assert(false);
        }
    }
    assert(path != path_user_agent()) by {
        assert(path_user_agent()[1] == 117u8);
    }
    assert(has_prefix(path, files_prefix())) by {
        assert(path.subrange(0, 7) =~= files_prefix());
    }
}

/// Every request matching no recognized route routes to a response with
/// status 404 and an empty body, whatever its method and path.
pub proof fn lemma_unrecognized_route(req: RequestModel)
    requires
        !recognized(req),
    ensures
        route_spec(req) == ActionModel::Respond(
            resp(req.protocol, status_not_found(), Seq::empty(), Seq::empty()),
        ),
{
}

/// The first blank-line separator of `data` stands at `e` when it stands
/// there and at no earlier index.
proof fn lemma_find_sep_at(data: Seq<u8>, i: int, e: int)
    requires
        0 <= i <= e,
        e + 4 <= data.len(),
        forall|j: int| i <= j < e ==> !sep_at(data, j),
        sep_at(data, e),
    ensures
        find_sep_from(data, i) == Some(e),
    decreases e - i,
{
    if i < e {
        lemma_find_sep_at(data, i + 1, e);
    }
}

/// One step of the tokenizer: whitespace at `i` is skipped.
proof fn lemma_tokens_skip_ws(s: Seq<u8>, i: int)
    requires
        0 <= i < s.len(),
        is_ws(s[i]),
    ensures
        tokens_from(s, i) == tokens_from(s, i + 1),
{
}

/// One step of the tokenizer: the whitespace-free run `s[i..e]` is taken as
/// one token when `e` is the end of `s` or holds whitespace.
proof fn lemma_tokens_take(s: Seq<u8>, i: int, e: int)
    requires
        0 <= i < e <= s.len(),
        forall|k: int| i <= k < e ==> !is_ws(s[k]),
        e == s.len() || is_ws(s[e]),
    ensures
        tokens_from(s, i) == seq![s.subrange(i, e)] + tokens_from(s, e),
{
    lemma_token_end_is(s, i, e);
}

/// Three non-empty whitespace-free words joined by single spaces tokenize to
/// exactly those three words.
proof fn lemma_tokens_three(t1: Seq<u8>, t2: Seq<u8>, t3: Seq<u8>)
    requires
        t1.len() > 0,
        t2.len() > 0,
        t3.len() > 0,
        forall|i: int| 0 <= i < t1.len() ==> !is_ws(#[trigger] t1[i]),
        forall|i: int| 0 <= i < t2.len() ==> !is_ws(#[trigger] t2[i]),
        forall|i: int| 0 <= i < t3.len() ==> !is_ws(#[trigger] t3[i]),
    ensures
        tokens(t1 + seq![32u8] + t2 + seq![32u8] + t3) == seq![t1, t2, t3],
{
    let w = t1 + seq![32u8] + t2 + seq![32u8] + t3;
    let n1 = t1.len() as int;
    let n2 = t2.len() as int;
    let n3 = t3.len() as int;
    assert(w.len() == n1 + 1 + n2 + 1 + n3);
    assert(forall|j: int| 0 <= j < n1 ==> w[j] == t1[j]);
    assert(w[n1] == 32u8);
    assert(forall|j: int| 0 <= j < n2 ==> #[trigger] w[n1 + 1 + j] == t2[j]);
    assert(w[n1 + 1 + n2] == 32u8);
    assert(forall|j: int| 0 <= j < n3 ==> #[trigger] w[n1 + n2 + 2 + j] == t3[j]);

    lemma_token_end_is(w, 0, n1);
    assert(tokens_from(w, 0) == seq![w.subrange(0, n1)] + tokens_from(w, n1));
    assert(w.subrange(0, n1) =~= t1);
    assert(is_ws(w[n1]));
    assert(tokens_from(w, n1) == tokens_from(w, n1 + 1));
    assert(forall|k: int| n1 + 1 <= k < n1 + 1 + n2 ==> !is_ws(#[trigger] w[k]));
    lemma_token_end_is(w, n1 + 1, n1 + 1 + n2);
    assert(tokens_from(w, n1 + 1) == seq![w.subrange(n1 + 1, n1 + 1 + n2)] + tokens_from(
        w,
        n1 + 1 + n2,
    ));
    assert(w.subrange(n1 + 1, n1 + 1 + n2) =~= t2);
    assert(is_ws(w[n1 + 1 + n2]));
    assert(tokens_from(w, n1 + 1 + n2) == tokens_from(w, n1 + n2 + 2));
    assert(forall|k: int| n1 + n2 + 2 <= k < w.len() ==> !is_ws(#[trigger] w[k]));
    lemma_token_end_is(w, n1 + n2 + 2, w.len() as int);
    assert(tokens_from(w, n1 + n2 + 2) == seq![w.subrange(n1 + n2 + 2, w.len() as int)]
        + tokens_from(w, w.len() as int));
    assert(w.subrange(n1 + n2 + 2, w.len() as int) =~= t3);
    assert(tokens_from(w, w.len() as int) =~= Seq::<Seq<u8>>::empty());
    assert(tokens(w) =~= seq![t1, t2, t3]);
}

/// A buffer holding one request line of three non-empty whitespace-free
/// tokens, the blank line, and a body parses to exactly those tokens, no
/// headers, and exactly that body.
pub proof fn lemma_request_line_parses(
    verb: Seq<u8>,
    path: Seq<u8>,
    p: Seq<u8>,
    body: Seq<u8>,
    data: Seq<u8>,
)
    requires
        data == verb + seq![32u8] + path + seq![32u8] + p + crlf2() + body,
        verb.len() > 0,
        path.len() > 0,
        p.len() > 0,
        forall|i: int| 0 <= i < verb.len() ==> !is_ws(#[trigger] verb[i]),
        forall|i: int| 0 <= i < path.len() ==> !is_ws(#[trigger] path[i]),
        forall|i: int| 0 <= i < p.len() ==> !is_ws(#[trigger] p[i]),
    ensures
        parse_ok(data),
        parsed(data).verb == verb,
        parsed(data).path == path,
        parsed(data).protocol == p,
        parsed(data).headers == Seq::<(Seq<u8>, Seq<u8>)>::empty(),
        parsed(data).body == body,
{
    let w = verb + seq![32u8] + path + seq![32u8] + p;
    let e = w.len() as int;
    assert(data.len() == e + 4 + body.len());
    assert(forall|j: int| 0 <= j < e ==> data[j] == w[j]);
    assert(sep_at(data, e)) by {
        assert(data.subrange(e, e + 4) =~= crlf2());
    }
    assert(forall|j: int| 0 <= j < e ==> data[j] != 13) by {
        assert(forall|i: int| 0 <= i < w.len() ==> #[trigger] w[i] != 13);
    }
    assert forall|j: int| 0 <= j < e implies !sep_at(data, j) by {
        if sep_at(data, j) {
            assert(data.subrange(j, j + 4)[0] == data[j]);
            assert(crlf2()[0] == 13u8);
            assert(false);
        }
    }
    lemma_find_sep_at(data, 0, e);
    assert(head_of(data) =~= w);
    assert(body_of(data) =~= body);

    lemma_tokens_three(verb, path, p);
    assert(tokens(head_of(data)) == seq![verb, path, p]);
    let ts = tokens(head_of(data));
    assert(ts.len() == 3);
    assert(ts[0] == verb && ts[1] == path && ts[2] == p);
    assert(ts.skip(3) =~= Seq::<Seq<u8>>::empty());
    assert(header_pairs(ts.skip(3)) == Seq::<(Seq<u8>, Seq<u8>)>::empty());
}

/// The method token `GET` is whitespace-free.
proof fn lemma_get_token_shape()
    ensures
        verb_get().len() > 0,
        forall|i: int| 0 <= i < verb_get().len() ==> !is_ws(#[trigger] verb_get()[i]),
{
    assert(verb_get()[0] == 71u8 && verb_get()[1] == 69u8 && verb_get()[2] == 84u8);
}

/// The echo property from the raw buffer up: a buffer holding exactly the
/// request line `GET /echo/<s> <p>` and the blank line parses, and its routed
/// response carries exactly `s`, `Content-Type: text/plain`, and
/// `Content-Length` the byte length of `s`.
pub proof fn lemma_echo_request_buffer(s: Seq<u8>, p: Seq<u8>, data: Seq<u8>)
    requires
        data == verb_get() + seq![32u8] + (echo_prefix() + s) + seq![32u8] + p + crlf2(),
        forall|i: int| 0 <= i < s.len() ==> !is_ws(#[trigger] s[i]),
        p.len() > 0,
        forall|i: int| 0 <= i < p.len() ==> !is_ws(#[trigger] p[i]),
    ensures
        parse_ok(data),
        route_spec(parsed(data)) == ActionModel::Respond(
            resp(p, status_ok(), plain_text_headers(s.len()), s),
        ),
{
    lemma_get_token_shape();
    assert(forall|i: int| 0 <= i < echo_prefix().len() ==> !is_ws(#[trigger] echo_prefix()[i]))
        by {
        assert(echo_prefix()[0] == 47u8 && echo_prefix()[1] == 101u8 && echo_prefix()[2] == 99u8
            && echo_prefix()[3] == 104u8 && echo_prefix()[4] == 111u8 && echo_prefix()[5] == 47u8);
    }
    assert(forall|i: int| 0 <= i < (echo_prefix() + s).len() ==> !is_ws(
        #[trigger] (echo_prefix() + s)[i],
    ));
    assert(data =~= verb_get() + seq![32u8] + (echo_prefix() + s) + seq![32u8] + p + crlf2()
        + Seq::<u8>::empty());
    lemma_request_line_parses(verb_get(), echo_prefix() + s, p, Seq::empty(), data);
    lemma_echo_route(parsed(data), s);
}

/// The root property from the raw buffer up: a buffer holding exactly the
/// request line `GET / <p>` and the blank line parses, and its routed
/// response has status 200, an empty body and no headers.
pub proof fn lemma_root_request_buffer(p: Seq<u8>, data: Seq<u8>)
    requires
        data == verb_get() + seq![32u8] + path_root() + seq![32u8] + p + crlf2(),
        p.len() > 0,
        forall|i: int| 0 <= i < p.len() ==> !is_ws(#[trigger] p[i]),
    ensures
        parse_ok(data),
        route_spec(parsed(data)) == ActionModel::Respond(
            resp(p, status_ok(), Seq::empty(), Seq::empty()),
        ),
{
    lemma_get_token_shape();
    assert(forall|i: int| 0 <= i < path_root().len() ==> !is_ws(#[trigger] path_root()[i])) by {
        assert(path_root()[0] == 47u8);
    }
    assert(data =~= verb_get() + seq![32u8] + path_root() + seq![32u8] + p + crlf2()
        + Seq::<u8>::empty());
    lemma_request_line_parses(verb_get(), path_root(), p, Seq::empty(), data);
    lemma_root_route(parsed(data));
}

/// The files round trip from the raw buffers up: a `POST /files/<name>`
/// buffer with body `B` parses and asks for exactly `B` to be written under
/// `name`; a `GET /files/<name>` buffer parses and asks for `name` to be
/// read; completing that read with contents `B` gives status 200, body
/// exactly `B` and `Content-Type: application/octet-stream`, and completing
/// it with no file gives status 404 with an empty body.
pub proof fn lemma_files_request_buffers(
    name: Seq<u8>,
    p: Seq<u8>,
    body: Seq<u8>,
    post_data: Seq<u8>,
    get_data: Seq<u8>,
)
    requires
        post_data == verb_post() + seq![32u8] + (files_prefix() + name) + seq![32u8] + p + crlf2()
            + body,
        get_data == verb_get() + seq![32u8] + (files_prefix() + name) + seq![32u8] + p + crlf2(),
        forall|i: int| 0 <= i < name.len() ==> !is_ws(#[trigger] name[i]),
        p.len() > 0,
        forall|i: int| 0 <= i < p.len() ==> !is_ws(#[trigger] p[i]),
    ensures
        parse_ok(post_data),
        parse_ok(get_data),
        route_spec(parsed(post_data)) == (ActionModel::WriteFile {
            name,
            contents: body,
            protocol: p,
        }),
        route_spec(parsed(get_data)) == (ActionModel::ReadFile { name, protocol: p }),
        file_read_spec(p, Some(body)) == resp(p, status_ok(), octet_stream_headers(body.len()), body),
        file_read_spec(p, None) == resp(p, status_not_found(), Seq::empty(), Seq::empty()),
{
    lemma_get_token_shape();
    assert(verb_post().len() > 0 && (forall|i: int| 0 <= i < verb_post().len() ==> !is_ws(
        #[trigger] verb_post()[i],
    ))) by {
        assert(verb_post()[0] == 80u8 && verb_post()[1] == 79u8 && verb_post()[2] == 83u8
            && verb_post()[3] == 84u8);
    }
    assert(forall|i: int| 0 <= i < files_prefix().len() ==> !is_ws(#[trigger] files_prefix()[i]))
        by {
        assert(files_prefix()[0] == 47u8 && files_prefix()[1] == 102u8 && files_prefix()[2]
            == 105u8 && files_prefix()[3] == 108u8 && files_prefix()[4] == 101u8
            && files_prefix()[5] == 115u8 && files_prefix()[6] == 47u8);
    }
    assert(forall|i: int| 0 <= i < (files_prefix() + name).len() ==> !is_ws(
        #[trigger] (files_prefix() + name)[i],
    ));
    lemma_request_line_parses(verb_post(), files_prefix() + name, p, body, post_data);
    assert(get_data =~= verb_get() + seq![32u8] + (files_prefix() + name) + seq![32u8] + p
        + crlf2() + Seq::<u8>::empty());
    lemma_request_line_parses(verb_get(), files_prefix() + name, p, Seq::empty(), get_data);
    lemma_files_round_trip(parsed(post_data), parsed(get_data), name);
    lemma_missing_file(parsed(get_data), name);
    assert(route_spec(parsed(post_data)) == (ActionModel::WriteFile {
        name,
        contents: body,
        protocol: p,
    })) by {
        assert(parsed(post_data).body == body && parsed(post_data).protocol == p);
    }
}

/// The user-agent property from the raw buffer up: a buffer holding the
/// request line `GET /user-agent <p>`, one header line `User-Agent: <v>` and
/// the blank line parses, and its routed response carries exactly `v`,
/// `Content-Type: text/plain`, and `Content-Length` the byte length of `v`.
pub proof fn lemma_user_agent_request_buffer(p: Seq<u8>, v: Seq<u8>, data: Seq<u8>)
    requires
        data == verb_get() + seq![32u8] + path_user_agent() + seq![32u8] + p + crlf()
            + h_user_agent() + seq![58u8, 32u8] + v + crlf2(),
        p.len() > 0,
        forall|i: int| 0 <= i < p.len() ==> !is_ws(#[trigger] p[i]),
        v.len() > 0,
        forall|i: int| 0 <= i < v.len() ==> !is_ws(#[trigger] v[i]),
    ensures
        parse_ok(data),
        route_spec(parsed(data)) == ActionModel::Respond(
            resp(p, status_ok(), plain_text_headers(v.len()), v),
        ),
{
    let c = 16 + p.len() as int;
    let e = c + 14 + v.len() as int;
    assert(data.len() == e + 4);

    // Where each byte of the buffer stands.
    assert(data[0] == 71u8 && data[1] == 69u8 && data[2] == 84u8);
    assert(data[3] == 32u8);
    assert(data[4] == 47u8 && data[5] == 117u8 && data[6] == 115u8 && data[7] == 101u8 && data[8]
        == 114u8 && data[9] == 45u8 && data[10] == 97u8 && data[11] == 103u8 && data[12] == 101u8
        && data[13] == 110u8 && data[14] == 116u8);
    assert(data[15] == 32u8);
    assert(data[c] == 13u8 && data[c + 1] == 10u8);
    assert(data[c + 2] == 85u8 && data[c + 3] == 115u8 && data[c + 4] == 101u8 && data[c + 5]
        == 114u8 && data[c + 6] == 45u8 && data[c + 7] == 65u8 && data[c + 8] == 103u8 && data[c
        + 9] == 101u8 && data[c + 10] == 110u8 && data[c + 11] == 116u8);
    assert(data[c + 12] == 58u8);
    assert(data[c + 13] == 32u8);
    assert(data[e] == 13u8 && data[e + 1] == 10u8 && data[e + 2] == 13u8 && data[e + 3] == 10u8);

    // The blank-line separator stands at e and nowhere earlier: before e the
    // only carriage return is the one ending the request line, and two bytes
    // past it stands the U of User-Agent.
    assert(sep_at(data, e)) by {
        assert(data.subrange(e, e + 4) =~= crlf2());
    }
    assert forall|j: int| 0 <= j < e implies !sep_at(data, j) by {
        if sep_at(data, j) {
            assert(data.subrange(j, j + 4)[0] == data[j]);
            assert(crlf2()[0] == 13u8);
            assert(data[j] == 13u8);
            if 16 <= j < c {
                assert(data[j] == p[j - 16]);
                assert(!is_ws(p[j - 16]));
                assert(false);
            } else if c + 14 <= j < e {
                assert(data[j] == v[j - c - 14]);
                assert(!is_ws(v[j - c - 14]));
                assert(false);
            } else if j == c {
                assert(data.subrange(j, j + 4)[2] == data[j + 2]);
                assert(crlf2()[2] == 13u8);
                assert(false);
            } else {
                assert(false);
            }
        }
    }
    lemma_find_sep_at(data, 0, e);
    let h = data.subrange(0, e);
    assert(head_of(data) == h);
    assert(body_of(data) =~= Seq::<u8>::empty());

    // The tokenizer's walk over the head: five tokens.
    lemma_tokens_take(h, 0, 3);
    assert(h.subrange(0, 3) =~= verb_get());
    lemma_tokens_skip_ws(h, 3);
    lemma_tokens_take(h, 4, 15);
    assert(h.subrange(4, 15) =~= path_user_agent());
    lemma_tokens_skip_ws(h, 15);
    assert forall|k: int| 16 <= k < c implies !is_ws(h[k]) by {
        assert(h[k] == data[k]);
        assert(data[k] == p[k - 16]);
        assert(!is_ws(p[k - 16]));
    }
    lemma_tokens_take(h, 16, c);
    assert(h.subrange(16, c) =~= p);
    lemma_tokens_skip_ws(h, c);
    lemma_tokens_skip_ws(h, c + 1);
    lemma_tokens_take(h, c + 2, c + 13);
    let name_tok = h_user_agent() + seq![58u8];
    assert(h.subrange(c + 2, c + 13) =~= name_tok);
    lemma_tokens_skip_ws(h, c + 13);
    assert forall|k: int| c + 14 <= k < e implies !is_ws(h[k]) by {
        assert(h[k] == data[k]);
        assert(data[k] == v[k - c - 14]);
        assert(!is_ws(v[k - c - 14]));
    }
    lemma_tokens_take(h, c + 14, e);
    assert(h.subrange(c + 14, e) =~= v);
    assert(tokens_from(h, e) =~= Seq::<Seq<u8>>::empty());
    let ts = tokens(h);
    assert(ts =~= seq![verb_get(), path_user_agent(), p, name_tok, v]);

    // The parsed request: the three request-line tokens, one header pair with
    // the name's trailing colon stripped, and an empty body.
    assert(parse_ok(data));
    assert(ts.skip(3) =~= seq![name_tok, v]);
    assert(ts.skip(3).skip(2) =~= Seq::<Seq<u8>>::empty());
    assert(strip_colon(name_tok) =~= h_user_agent()) by {
        assert(name_tok.last() == 58u8);
        assert(name_tok.drop_last() =~= h_user_agent());
    }
    let rest = ts.skip(3);
    assert(rest[0] == name_tok && rest[1] == v);
    assert(header_pairs(rest.skip(2)) == Seq::<(Seq<u8>, Seq<u8>)>::empty());
    assert(header_pairs(rest) == seq![(strip_colon(rest[0]), rest[1])] + header_pairs(
        rest.skip(2),
    ));
    assert(header_pairs(rest) =~= seq![(h_user_agent(), v)]);
    let req = parsed(data);
    assert(req.headers.last() == (h_user_agent(), v));
    assert(header_lookup(req.headers, h_user_agent()) == Some(v));
    lemma_user_agent_route(req, v);
}

/// A response with status 200, no headers and an empty body serializes to
/// exactly `<protocol> 200 OK\r\n\r\n`.
pub proof fn lemma_wire_minimal(proto: Seq<u8>)
    ensures
        wire(resp(proto, status_ok(), Seq::empty(), Seq::empty())) == proto + seq![
            32u8,
            50u8,
            48u8,
            48u8,
            32u8,
            79u8,
            75u8,
            13u8,
            10u8,
            13u8,
            10u8,
        ],
{
    assert(wire(resp(proto, status_ok(), Seq::empty(), Seq::empty())) =~= proto + seq![
        32u8,
        50u8,
        48u8,
        48u8,
        32u8,
        79u8,
        75u8,
        13u8,
        10u8,
        13u8,
        10u8,
    ]);
}

/// A response with a non-empty body and exactly two headers serializes to the
/// status line, each header line exactly once and in order, one blank line,
/// the body, and the trailing `\r\n\r\n`.
pub proof fn lemma_wire_with_body(
    proto: Seq<u8>,
    status: Seq<u8>,
    n1: Seq<u8>,
    v1: Seq<u8>,
    n2: Seq<u8>,
    v2: Seq<u8>,
    body: Seq<u8>,
)
    requires
        body.len() > 0,
    ensures
        wire(resp(proto, status, seq![(n1, v1), (n2, v2)], body)) == proto + seq![32u8] + status
            + crlf() + n1 + seq![58u8, 32u8] + v1 + crlf() + n2 + seq![58u8, 32u8] + v2 + crlf2()
            + body + crlf2(),
{
    let hs = seq![(n1, v1), (n2, v2)];
    let tail = hs.skip(1);
    assert(tail =~= seq![(n2, v2)]);
    assert(tail.skip(1) =~= Seq::<(Seq<u8>, Seq<u8>)>::empty());
    assert(header_block(tail) == header_line((n2, v2)) + header_block(tail.skip(1)));
    assert(header_block(hs) == header_line((n1, v1)) + header_block(tail));
    assert(wire(resp(proto, status, hs, body)) =~= proto + seq![32u8] + status + crlf() + n1
        + seq![58u8, 32u8] + v1 + crlf() + n2 + seq![58u8, 32u8] + v2 + crlf2() + body + crlf2());
}

} // verus!
