//! What the server's web side decides: which routes it serves, the tunnel
//! message it makes of an incoming webhook request, and the HTTP answer it
//! makes of what came back.

use vstd::prelude::*;
use crate::error::Error;
use crate::message;
use crate::message::{HttpLine, StatusLine, StatusLineV, TunnelMessage2, WebhookHeader};
use crate::text::{chars_of, eq_str, push_str, string_from_chars};

verus! {

broadcast use vstd::string::group_string_axioms;

/// Whether the server runs as a whole website (`*`): every path is
/// forwarded; otherwise only the webhook path is.
pub fn is_website_mode(webhook_path: &str) -> (r: bool)
    ensures
        r == (webhook_path@ == "*"@),
{
    let p = chars_of(webhook_path);
    eq_str(p.as_slice(), "*")
}

/// The methods whose request body is forwarded.
pub open spec fn carries_body_spec(method: Seq<char>) -> bool {
    method == "POST"@ || method == "PUT"@ || method == "PATCH"@
}

/// Whether a request with this method has its body forwarded.
pub fn carries_body(method: &str) -> (r: bool)
    ensures
        r == carries_body_spec(method@),
{
    let m = chars_of(method);
    eq_str(m.as_slice(), "POST") || eq_str(m.as_slice(), "PUT") || eq_str(m.as_slice(), "PATCH")
}

/// The tunnel message for an incoming webhook request: a header line with
/// the new id, the request line `<method> <uri> HTTP/1.1`, the request's
/// headers, and its body when the method carries one.
pub fn webhook_request(
    id: u128,
    method: String,
    uri: String,
    headers: Vec<(String, String)>,
    body: Vec<u8>,
) -> (r: TunnelMessage2)
    ensures
        r@.header == (message::wh_version(), id),
        r@.http_line == StatusLineV::Request((method@, uri@, "HTTP/1.1"@)),
        r@.http_headers == message::pairs_view(headers@),
        r@.http_body == if carries_body_spec(method@) {
            body@
        } else {
            Seq::<u8>::empty()
        },
{
    let with_body = carries_body(method.as_str());
    let http_st = StatusLine::Request(HttpLine::new(method, uri, String::from_str("HTTP/1.1")));
    let mut http_req = TunnelMessage2::new(WebhookHeader::new(id), http_st);
    http_req.http_headers = headers;
    if with_body {
        http_req.http_body = body;
    }
    http_req
}

/// An HTTP answer: status code, headers, body.
pub struct WebResponse {
    pub status: u16,
    pub headers: Vec<(String, String)>,
    pub body: Vec<u8>,
}

/// The answer relayed for a response that came back through the tunnel:
/// its status code, headers and body.
pub fn forward_success(fw_res: TunnelMessage2) -> (r: WebResponse)
    requires
        fw_res@.http_line is Response,
    ensures
        fw_res@.http_line matches StatusLineV::Response(l) && r.status == l.1,
        message::pairs_view(r.headers@) == fw_res@.http_headers,
        r.body@ == fw_res@.http_body,
{
    let status = match &fw_res.http_line {
        StatusLine::Response(st) => st.status_code,
        StatusLine::Request(_) => {
            proof {
                assert(false);
            }
            0
        },
    };
    WebResponse { status, headers: fw_res.http_headers, body: fw_res.http_body }
}

/// The body of the answer when nothing came back:
/// `Service Unavailable[: <error>]\n`.
pub open spec fn forward_error_text(error: Option<crate::error::ErrorV>) -> Seq<char> {
    "Service Unavailable"@ + match error {
        Some(e) => ": "@ + crate::error::error_text(e),
        None => Seq::<char>::empty(),
    } + "\n"@
}

/// The answer when no response came back: status 503 and a text naming the
/// error, if any.
pub fn forward_error(error: Option<Error>) -> (r: (u16, String))
    ensures
        r.0 == 503,
        r.1@ == forward_error_text(
            match error {
                Some(e) => Some(e@),
                None => None,
            },
        ),
{
    let mut v: Vec<char> = Vec::new();
    push_str(&mut v, "Service Unavailable");
    match &error {
        Some(err) => {
            push_str(&mut v, ": ");
            let m = err.message();
            push_str(&mut v, m.as_str());
        },
        None => {},
    }
    push_str(&mut v, "\n");
    (503, string_from_chars(v.as_slice()))
}


/// The body of an incoming request crosses the tunnel for exactly the
/// methods that carry one, POST, PUT and PATCH: for these the tunnel
/// message holds the request body unchanged, for every other method it
/// holds none.
pub proof fn lemma_forwarded_body_methods(method: Seq<char>, body: Seq<u8>)
    ensures
        carries_body_spec(method) <==> (method == "PATCH"@ || method == "PUT"@ || method == "POST"@),
        (method == "PATCH"@ || method == "PUT"@ || method == "POST"@) ==> (if carries_body_spec(
            method,
        ) {
            body
        } else {
            Seq::<u8>::empty()
        }) == body,
{
}

} // verus!
