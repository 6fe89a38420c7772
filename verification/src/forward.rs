//! Routing a tunnelled request to a local target, and turning the target's
//! answer back into a tunnel message.

use vstd::prelude::*;
use crate::client_config::{Config, ProxyTarget};
use crate::config::ClientConfig;
use crate::message;
use crate::message::{ResponseLine, StatusLine, StatusLineV, TunnelMessage2, WebhookHeader};
use crate::text;
use crate::text::{chars_of, eq_str, push_str, starts_with_chars, string_from_chars};

verus! {

broadcast use vstd::string::group_string_axioms;

/// Index of the first target at or after `i` whose source path starts `uri`.
pub open spec fn first_target_from(ts: Seq<ProxyTarget>, uri: Seq<char>, i: int) -> Option<int>
    decreases ts.len() - i,
{
    if i < 0 || i >= ts.len() {
        None
    } else if text::has_prefix(uri, ts[i].source_path@) {
        Some(i)
    } else {
        first_target_from(ts, uri, i + 1)
    }
}

/// Index of the first target whose source path starts `uri`.
pub fn find_target_index(config: &Config, uri: &str) -> (r: Option<usize>)
    ensures
        match r {
            Some(i) => first_target_from(config.targets@, uri@, 0) == Some(i as int) && i
                < config.targets@.len(),
            None => first_target_from(config.targets@, uri@, 0) is None,
        },
{
    let u = chars_of(uri);
    let mut i: usize = 0;
    while i < config.targets.len()
        invariant
            i <= config.targets@.len(),
            u@ == uri@,
            first_target_from(config.targets@, uri@, 0) == first_target_from(
                config.targets@,
                uri@,
                i as int,
            ),
        decreases config.targets.len() - i,
    {
        let sp = chars_of(config.targets[i].source_path.as_str());
        if starts_with_chars(u.as_slice(), sp.as_slice()) {
            return Some(i);
        }
        i = i + 1;
    }
    None
}

/// The first target whose source path starts `uri`.
pub fn find_target<'a>(config: &'a Config, uri: &str) -> (r: Option<&'a ProxyTarget>)
    ensures
        match r {
            Some(t) => exists|i: int|
                first_target_from(config.targets@, uri@, 0) == Some(i) && 0 <= i
                    < config.targets@.len() && *t == config.targets@[i],
            None => first_target_from(config.targets@, uri@, 0) is None,
        },
{
    match find_target_index(config, uri) {
        Some(i) => Some(&config.targets[i]),
        None => None,
    }
}

/// `s[i..]` with every occurrence of `pat` replaced by `to`, left to right
/// and without overlap; an empty `pat` matches before every character and at
/// the end (`str::replace`).
pub open spec fn replace_from(s: Seq<char>, pat: Seq<char>, to: Seq<char>, i: int) -> Seq<char>
    decreases s.len() - i, if pat.len() == 0 { 1int } else { 0int },
{
    if i < 0 || i > s.len() {
        seq![]
    } else if pat.len() == 0 {
        if i < s.len() {
            to + seq![s[i]] + replace_from(s, pat, to, i + 1)
        } else {
            to
        }
    } else if i + pat.len() <= s.len() && s.subrange(i, i + pat.len()) == pat {
        to + replace_from(s, pat, to, i + pat.len())
    } else if i < s.len() {
        seq![s[i]] + replace_from(s, pat, to, i + 1)
    } else {
        seq![]
    }
}

fn matches_chars_at(s: &[char], pat: &[char], i: usize) -> (r: bool)
    requires
        i <= s@.len(),
    ensures
        r == (i + pat@.len() <= s@.len() && s@.subrange(i as int, i + pat@.len()) == pat@),
{
    let n = s.len();
    if pat.len() > n - i {
        return false;
    }
    let mut k: usize = 0;
    while k < pat.len()
        invariant
            n == s@.len(),
            i + pat@.len() <= n,
            k <= pat@.len(),
            forall|j: int| 0 <= j < k ==> s@[i + j] == pat@[j],
        decreases pat.len() - k,
    {
        if s[i + k] != pat[k] {
            assert(s@.subrange(i as int, i + pat@.len())[k as int] != pat@[k as int]);
            return false;
        }
        k = k + 1;
    }
    assert(s@.subrange(i as int, i + pat@.len()) =~= pat@);
    true
}

fn push_chars(v: &mut Vec<char>, s: &[char])
    ensures
        final(v)@ == old(v)@ + s@,
{
    let mut i: usize = 0;
    while i < s.len()
        invariant
            i <= s@.len(),
            v@ == old(v)@ + s@.take(i as int),
        decreases s.len() - i,
    {
        assert(s@.take(i + 1) =~= s@.take(i as int).push(s@[i as int]));
        v.push(s[i]);
        i = i + 1;
    }
    assert(s@.take(s@.len() as int) =~= s@);
}

/// `s` with every occurrence of `from` replaced by `to` (`str::replace`).
pub fn replace(s: &str, from: &str, to: &str) -> (r: String)
    ensures
        r@ == replace_from(s@, from@, to@, 0),
{
    let cs = chars_of(s);
    let pat = chars_of(from);
    let rep = chars_of(to);
    let n = cs.len();
    let mut out: Vec<char> = Vec::new();
    let mut i: usize = 0;
    while i < n
        invariant
            i <= n == cs@.len(),
            cs@ == s@,
            pat@ == from@,
            rep@ == to@,
            replace_from(s@, from@, to@, 0) == out@ + replace_from(s@, from@, to@, i as int),
        decreases n - i,
    {
        let ghost before = out@;
        if pat.len() == 0 {
            push_chars(&mut out, rep.as_slice());
            out.push(cs[i]);
            assert(out@ + replace_from(s@, from@, to@, i + 1) =~= before + replace_from(
                s@,
                from@,
                to@,
                i as int,
            ));
            i = i + 1;
        } else if matches_chars_at(cs.as_slice(), pat.as_slice(), i) {
            push_chars(&mut out, rep.as_slice());
            assert(out@ + replace_from(s@, from@, to@, i + pat@.len()) =~= before + replace_from(
                s@,
                from@,
                to@,
                i as int,
            ));
            i = i + pat.len();
        } else {
            out.push(cs[i]);
            assert(out@ + replace_from(s@, from@, to@, i + 1) =~= before + replace_from(
                s@,
                from@,
                to@,
                i as int,
            ));
            i = i + 1;
        }
    }
    if pat.len() == 0 {
        push_chars(&mut out, rep.as_slice());
    }
    assert(out@ =~= replace_from(s@, from@, to@, 0));
    string_from_chars(out.as_slice())
}

/// `"https"` for a secure target, else `"http"`.
pub open spec fn protocol(secure: bool) -> Seq<char> {
    if secure {
        "https"@
    } else {
        "http"@
    }
}

/// The URL a request is sent to: `<protocol>://<host><path>`.
pub open spec fn target_url(secure: bool, host: Seq<char>, path: Seq<char>) -> Seq<char> {
    protocol(secure) + "://"@ + host + path
}

/// Builds `target_url`.
pub fn make_url(secure: bool, host: &str, path: &str) -> (r: String)
    ensures
        r@ == target_url(secure, host@, path@),
{
    let mut v: Vec<char> = Vec::new();
    if secure {
        push_str(&mut v, "https");
    } else {
        push_str(&mut v, "http");
    }
    push_str(&mut v, "://");
    push_str(&mut v, host);
    push_str(&mut v, path);
    string_from_chars(v.as_slice())
}

/// A request to be sent to a local target.
pub struct ForwardRequest {
    pub method: String,
    pub url: String,
    pub headers: Vec<(String, String)>,
    pub body: Option<Vec<u8>>,
}

/// The headers sent on: the `host` header names the target host, the others
/// are kept.
pub open spec fn forward_headers(hs: Seq<(Seq<char>, Seq<char>)>, host: Seq<char>) -> Seq<(Seq<char>, Seq<char>)> {
    hs.map_values(
        |h: (Seq<char>, Seq<char>)|
            if h.0 == "host"@ {
                ("host"@, host)
            } else {
                h
            },
    )
}

/// The body sent on: the message body when it is not empty.
pub open spec fn forward_body(b: Seq<u8>) -> Option<Seq<u8>> {
    if b.len() > 0 {
        Some(b)
    } else {
        None
    }
}

fn rewrite_headers(hs: &Vec<(String, String)>, host: &String) -> (r: Vec<(String, String)>)
    ensures
        message::pairs_view(r@) == forward_headers(message::pairs_view(hs@), host@),
{
    let mut r: Vec<(String, String)> = Vec::new();
    let mut i: usize = 0;
    while i < hs.len()
        invariant
            i <= hs@.len(),
            message::pairs_view(r@) == forward_headers(message::pairs_view(hs@), host@).take(
                i as int,
            ),
        decreases hs.len() - i,
    {
        let ghost before = r@;
        let ghost fh = forward_headers(message::pairs_view(hs@), host@);
        let k = chars_of(hs[i].0.as_str());
        let item = if eq_str(k.as_slice(), "host") {
            (String::from_str("host"), host.clone())
        } else {
            (hs[i].0.clone(), hs[i].1.clone())
        };
        assert((item.0@, item.1@) == fh[i as int]);
        r.push(item);
        assert(message::pairs_view(r@) =~= message::pairs_view(before).push(fh[i as int]));
        assert(fh.take(i + 1) =~= fh.take(i as int).push(fh[i as int]));
        i = i + 1;
    }
    assert(forward_headers(message::pairs_view(hs@), host@).take(hs@.len() as int)
        =~= forward_headers(message::pairs_view(hs@), host@));
    r
}

fn copy_body(b: &Vec<u8>) -> (r: Option<Vec<u8>>)
    ensures
        match r {
            Some(v) => forward_body(b@) == Some(v@),
            None => forward_body(b@) is None,
        },
{
    if b.len() > 0 {
        Some(crate::bytes::sub_bytes(b.as_slice(), 0, b.len()))
    } else {
        None
    }
}

/// The request a client sends to the target chosen by the request path:
/// the same method; the URL of the target host with the path's source prefix
/// replaced by the target's destination path; the headers with `host`
/// naming the target; the body when there is one.
pub fn plan_forward(config: &Config, message: &TunnelMessage2) -> (r: ForwardRequest)
    requires
        message@.http_line matches StatusLineV::Request(l) && first_target_from(
            config.targets@,
            l.1,
            0,
        ) is Some,
    ensures
        message@.http_line matches StatusLineV::Request(l) && ({
            let t = config.targets@[first_target_from(config.targets@, l.1, 0).unwrap()];
            &&& r.method@ == l.0
            &&& r.url@ == target_url(
                t.secure,
                t.host@,
                replace_from(l.1, t.source_path@, t.dest_path@, 0),
            )
            &&& message::pairs_view(r.headers@) == forward_headers(message@.http_headers, t.host@)
        }),
        match r.body {
            Some(b) => forward_body(message@.http_body) == Some(b@),
            None => forward_body(message@.http_body) is None,
        },
{
    let st = match &message.http_line {
        StatusLine::Request(req) => req,
        StatusLine::Response(_) => {
            proof {
                assert(false);
            }
            return ForwardRequest {
                method: String::new(),
                url: String::new(),
                headers: Vec::new(),
                body: None,
            };
        },
    };
    let i = match find_target_index(config, st.path.as_str()) {
        Some(i) => i,
        None => {
            proof {
                assert(false);
            }
            0
        },
    };
    let target = &config.targets[i];
    let target_uri = replace(st.path.as_str(), target.source_path.as_str(), target.dest_path.as_str());
    let url = make_url(target.secure, target.host.as_str(), target_uri.as_str());
    ForwardRequest {
        method: st.method.clone(),
        url,
        headers: rewrite_headers(&message.http_headers, &target.host),
        body: copy_body(&message.http_body),
    }
}

/// The request a single-target client sends: the target address from its
/// configuration and the path as it came.
pub fn plan_forward_direct(config: &ClientConfig, message: &TunnelMessage2) -> (r: ForwardRequest)
    requires
        message@.http_line is Request,
    ensures
        message@.http_line matches StatusLineV::Request(l) && {
            &&& r.method@ == l.0
            &&& r.url@ == target_url(config.target_secure, config.target_address@, l.1)
            &&& message::pairs_view(r.headers@) == forward_headers(
                message@.http_headers,
                config.target_address@,
            )
        },
        match r.body {
            Some(b) => forward_body(message@.http_body) == Some(b@),
            None => forward_body(message@.http_body) is None,
        },
{
    let st = match &message.http_line {
        StatusLine::Request(req) => req,
        StatusLine::Response(_) => {
            proof {
                assert(false);
            }
            return ForwardRequest {
                method: String::new(),
                url: String::new(),
                headers: Vec::new(),
                body: None,
            };
        },
    };
    let url = make_url(config.target_secure, config.target_address.as_str(), st.path.as_str());
    ForwardRequest {
        method: st.method.clone(),
        url,
        headers: rewrite_headers(&message.http_headers, &config.target_address),
        body: copy_body(&message.http_body),
    }
}

/// The tunnel message that carries a target's answer back: the request's id,
/// a response line with the target's version, status and reason, the
/// target's headers and body.
pub fn target_response_message(
    req_id: u128,
    version: String,
    status: u16,
    reason: String,
    headers: Vec<(String, String)>,
    body: Vec<u8>,
) -> (r: TunnelMessage2)
    ensures
        r@.header == (message::wh_version(), req_id),
        r@.http_line == StatusLineV::Response((version@, status, Some(reason@))),
        r@.http_headers == message::pairs_view(headers@),
        r@.http_body == body@,
{
    let status_line = StatusLine::Response(ResponseLine::new(version, status, Some(reason)));
    let header = WebhookHeader::new(req_id);
    let mut tunnel_res = TunnelMessage2::new(header, status_line);
    tunnel_res.http_headers = headers;
    tunnel_res.http_body = body;
    tunnel_res
}


/// Where `pat` (non-empty) occurs nowhere from `i` on, replacing leaves the
/// rest as it is.
pub proof fn lemma_replace_none(s: Seq<char>, pat: Seq<char>, to: Seq<char>, i: int)
    requires
        pat.len() > 0,
        0 <= i <= s.len(),
        forall|k: int|
            i <= k && k + pat.len() <= s.len() ==> #[trigger] s.subrange(k, k + pat.len()) != pat,
    ensures
        replace_from(s, pat, to, i) == s.skip(i),
    decreases s.len() - i,
{
    if i < s.len() {
        lemma_replace_none(s, pat, to, i + 1);
        assert(seq![s[i]] + s.skip(i + 1) =~= s.skip(i));
    } else {
        assert(s.skip(i) =~= Seq::<char>::empty());
    }
}

/// A path that starts with a target's source path, and holds it nowhere
/// else, is sent to the target's destination path followed by the rest of
/// the path.
pub proof fn lemma_replace_source_prefix(src: Seq<char>, dest: Seq<char>, rest: Seq<char>)
    requires
        src.len() > 0,
        forall|k: int|
            src.len() <= k && k + src.len() <= src.len() + rest.len() ==> #[trigger] (src
                + rest).subrange(k, k + src.len()) != src,
    ensures
        replace_from(src + rest, src, dest, 0) == dest + rest,
{
    let s = src + rest;
    assert(s.subrange(0, src.len() as int) =~= src);
    lemma_replace_none(s, src, dest, src.len() as int);
    assert(s.skip(src.len() as int) =~= rest);
}


/// `src` is a prefix of `uri` (equal counts).
pub open spec fn path_under(uri: Seq<char>, src: Seq<char>) -> bool {
    src.len() <= uri.len() && uri.take(src.len() as int) == src
}

proof fn lemma_route_from(ts: Seq<ProxyTarget>, uri: Seq<char>, i: int)
    requires
        0 <= i <= ts.len(),
    ensures
        match first_target_from(ts, uri, i) {
            Some(k) => i <= k < ts.len() && path_under(uri, ts[k].source_path@) && forall|j: int|
                i <= j < k ==> !path_under(uri, #[trigger] ts[j].source_path@),
            None => forall|j: int| i <= j < ts.len() ==> !path_under(uri, #[trigger] ts[j].source_path@),
        },
    decreases ts.len() - i,
{
    if i < ts.len() {
        assert(uri.take(ts[i].source_path@.len() as int) =~= uri.subrange(
            0,
            ts[i].source_path@.len() as int,
        ));
        lemma_route_from(ts, uri, i + 1);
    }
}

/// Routing sends a path to the first target whose source path is a prefix
/// of it, a path equal to a source path included; when no source path is a
/// prefix of it, there is no target.
pub proof fn lemma_route_first_prefix(ts: Seq<ProxyTarget>, uri: Seq<char>)
    ensures
        match first_target_from(ts, uri, 0) {
            Some(k) => 0 <= k < ts.len() && path_under(uri, ts[k].source_path@) && forall|j: int|
                0 <= j < k ==> !path_under(uri, #[trigger] ts[j].source_path@),
            None => forall|j: int| 0 <= j < ts.len() ==> !path_under(uri, #[trigger] ts[j].source_path@),
        },
        forall|k: int|
            0 <= k < ts.len() && path_under(uri, #[trigger] ts[k].source_path@) && (forall|j: int|
                0 <= j < k ==> !path_under(uri, #[trigger] ts[j].source_path@)) ==> first_target_from(
                ts,
                uri,
                0,
            ) == Some(k),
{
    lemma_route_from(ts, uri, 0);
}

/// A secure target is reached over `https`, any other over `http`: the URL
/// is the scheme, `://`, the host, then the path, and the host header sent
/// names the target host while every other header goes on as it came, in
/// the same order.
pub proof fn lemma_forward_url_and_headers(
    host: Seq<char>,
    path: Seq<char>,
    hs: Seq<(Seq<char>, Seq<char>)>,
)
    ensures
        target_url(true, host, path) == "https://"@ + host + path,
        target_url(false, host, path) == "http://"@ + host + path,
        forward_headers(hs, host).len() == hs.len(),
        forall|i: int|
            0 <= i < hs.len() ==> (#[trigger] forward_headers(hs, host)[i]) == (if hs[i].0
                == "host"@ {
                (hs[i].0, host)
            } else {
                hs[i]
            }),
{
    reveal_strlit("https");
    reveal_strlit("http");
    reveal_strlit("://");
    reveal_strlit("https://");
    reveal_strlit("http://");
    assert("https"@ + "://"@ =~= "https://"@);
    assert("http"@ + "://"@ =~= "http://"@);
    assert("https"@ + "://"@ + host + path =~= "https://"@ + host + path);
    assert("http"@ + "://"@ + host + path =~= "http://"@ + host + path);
}

} // verus!
