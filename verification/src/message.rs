//! Tunnel messages: the status lines of HTTP requests and responses, the
//! webhook header line, and whole messages as they cross the tunnel.

use vstd::prelude::*;
use crate::error::{Error, ErrorV};
use crate::id;
use crate::number;
use crate::text;
use crate::bytes;
use crate::text::{
    chars_of, eq_str, find_char, push_str, split_lines, split_ws, str_bytes, string_from_chars,
    sub_chars, to_lowercase, trim_chars, decode_lossy,
};

verus! {

broadcast use vstd::string::group_string_axioms;

/// `" "`
pub open spec fn sp() -> Seq<char> {
    seq![' ']
}

/// `"\r\n"`
pub open spec fn crlf_chars() -> Seq<char> {
    seq!['\r', '\n']
}

/// Header naming the tunnel operation of a message.
pub const WEBHOOK_OP: &'static str = "x-webhook-op";

/// Header carrying the client's auth token.
pub const WEBHOOK_TOKEN: &'static str = "x-webhook-token";

/// Header carrying the message id.
pub const WEBHOOK_REQ_ID: &'static str = "x-webhook-req-id";

/// Operation of an auth request.
pub const WEBHOOK_OP_AUTH: &'static str = "auth";

/// Path of an auth request.
pub const WEBHOOK_OP_AUTH_PATH: &'static str = "/_x_webhook_auth";

/// Operation of an auth response.
pub const WEBHOOK_OP_AUTH_RES: &'static str = "auth-res";

/// Operation of a forwarded request.
pub const WEBHOOK_OP_FORWARD: &'static str = "forward";

/// Operation of a forwarded response.
pub const WEBHOOK_OP_FORWARD_RES: &'static str = "forward-res";

/// Marker that ends each message on the tunnel.
pub const MSG_EOF: [u8; 15] = [60, 60, 91, 91, 40, 40, 94, 95, 94, 41, 41, 93, 93, 62, 62];

/// The end-of-message marker `<<[[((^_^))]]>>`.
pub open spec fn eof_marker() -> Seq<u8> {
    seq![60u8, 60, 91, 91, 40, 40, 94, 95, 94, 41, 41, 93, 93, 62, 62]
}

/// The version word of the webhook header line.
pub open spec fn wh_version() -> Seq<char> {
    "WH/1.0"@
}

// ---------------------------------------------------------------------------
// Webhook header line
// ---------------------------------------------------------------------------
/// The first line of a message from the server: `WH/1.0 <message-id>\r\n`.
pub struct WebhookHeader {
    pub version: String,
    pub id: u128,
}

/// The text of a webhook header line.
pub open spec fn webhook_header_text(version: Seq<char>, id: u128) -> Seq<char> {
    version + sp() + id::uuid_text(id) + crlf_chars()
}

/// What parsing a webhook header line gives: its version word and its id, or
/// `None` when the line is malformed.
pub open spec fn webhook_header_parse(s: Seq<char>) -> Option<(Seq<char>, u128)> {
    let t = text::tokens(s);
    if t.len() >= 2 && t[0] == wh_version() && id::uuid_parse(t[1]) is Some {
        Some((t[0], id::uuid_parse(t[1]).unwrap()))
    } else {
        None
    }
}

/// A header line whose first word is `WH/1.0` and whose second word is `w`.
pub open spec fn uuid_word_at(line: Seq<char>, w: Seq<char>) -> bool {
    let t = text::tokens(line);
    t.len() >= 2 && t[0] == wh_version() && t[1] == w
}

impl View for WebhookHeader {
    type V = (Seq<char>, u128);

    open spec fn view(&self) -> (Seq<char>, u128) {
        (self.version@, self.id)
    }
}

impl WebhookHeader {
    /// A header line of the current version for the given id.
    pub fn new(id: u128) -> (r: Self)
        ensures
            r.version@ == wh_version(),
            r.id == id,
    {
        WebhookHeader { version: String::from_str("WH/1.0"), id }
    }

    /// Reads a header line; `Error::TunnelMessageInvalid` unless its first
    /// word is `WH/1.0` and its second a UUID.
    pub fn parse_str(line: &str) -> (r: Result<Self, Error>)
        ensures
            match r {
                Ok(h) => webhook_header_parse(line@) == Some((h.version@, h.id)),
                Err(e) => webhook_header_parse(line@) is None && e@ == ErrorV::TunnelMessageInvalid,
            },
            forall|v: u128|
                #![trigger id::uuid_text(v)]
                uuid_word_at(line@, id::uuid_text(v)) ==> id::uuid_parse(id::uuid_text(v)) == Some(v)
                    && (r matches Ok(h) && h.id == v),
    {
        let cs = chars_of(line);
        let t = split_ws(cs.as_slice());
        proof {
            assert(text::views(t@).len() == t@.len());
        }
        if t.len() < 1 {
            return Err(Error::TunnelMessageInvalid);
        }
        assert(text::views(t@)[0] == t@[0]@);
        if !eq_str(t[0].as_slice(), "WH/1.0") {
            return Err(Error::TunnelMessageInvalid);
        }
        if t.len() < 2 {
            return Err(Error::TunnelMessageInvalid);
        }
        assert(text::views(t@)[1] == t@[1]@);
        let id_text = string_from_chars(t[1].as_slice());
        match id::parse_uuid(id_text.as_str()) {
            Some(id) => Ok(WebhookHeader { version: string_from_chars(t[0].as_slice()), id }),
            None => Err(Error::TunnelMessageInvalid),
        }
    }

    /// The header line's text, `"<version> <id>\r\n"`.
    pub fn to_string(&self) -> (r: String)
        ensures
            r@ == webhook_header_text(self.version@, self.id),
    {
        let mut v: Vec<char> = Vec::new();
        push_str(&mut v, self.version.as_str());
        v.push(' ');
        let id = id::uuid_string(self.id);
        push_str(&mut v, id.as_str());
        v.push('\r');
        v.push('\n');
        string_from_chars(v.as_slice())
    }

    /// The header line's UTF-8 bytes.
    pub fn into_bytes(&self) -> (r: Vec<u8>)
        ensures
            r@ == vstd::utf8::encode_utf8(webhook_header_text(self.version@, self.id)),
    {
        let s = self.to_string();
        str_bytes(s.as_str())
    }
}

// ---------------------------------------------------------------------------
// Request line
// ---------------------------------------------------------------------------
/// An HTTP request line: method, path and protocol version.
pub struct HttpLine {
    pub method: String,
    pub path: String,
    pub version: String,
}

impl View for HttpLine {
    type V = (Seq<char>, Seq<char>, Seq<char>);

    open spec fn view(&self) -> (Seq<char>, Seq<char>, Seq<char>) {
        (self.method@, self.path@, self.version@)
    }
}

/// The text of a request line.
pub open spec fn http_line_text(l: (Seq<char>, Seq<char>, Seq<char>)) -> Seq<char> {
    l.0 + sp() + l.1 + sp() + l.2 + crlf_chars()
}

/// What parsing a request line gives: its first three words, or the error
/// naming the first missing one.
pub open spec fn http_line_parse(s: Seq<char>) -> Result<(Seq<char>, Seq<char>, Seq<char>), ErrorV> {
    let t = text::tokens(s);
    if t.len() == 0 {
        Err(ErrorV::RequestLineInvalid("Method missing"@))
    } else if t.len() == 1 {
        Err(ErrorV::RequestLineInvalid("Path missing"@))
    } else if t.len() == 2 {
        Err(ErrorV::RequestLineInvalid("Version missing"@))
    } else {
        Ok((t[0], t[1], t[2]))
    }
}

/// Copies token `i` into a `String`.
fn token_string(t: &Vec<Vec<char>>, i: usize) -> (r: String)
    requires
        i < t@.len(),
    ensures
        r@ == text::views(t@)[i as int],
{
    string_from_chars(t[i].as_slice())
}

impl HttpLine {
    pub fn new(method: String, path: String, version: String) -> (r: Self)
        ensures
            r.method == method,
            r.path == path,
            r.version == version,
    {
        HttpLine { method, path, version }
    }

    /// Reads the first three words of a line as method, path and version.
    pub fn parse(line: &str) -> (r: Result<Self, Error>)
        ensures
            crate::error::result_view(r) == http_line_parse(line@),
    {
        let cs = chars_of(line);
        let t = split_ws(cs.as_slice());
        assert(text::views(t@).len() == t@.len());
        if t.len() == 0 {
            return Err(Error::RequestLineInvalid(String::from_str("Method missing")));
        }
        if t.len() == 1 {
            return Err(Error::RequestLineInvalid(String::from_str("Path missing")));
        }
        if t.len() == 2 {
            return Err(Error::RequestLineInvalid(String::from_str("Version missing")));
        }
        Ok(
            HttpLine {
                method: token_string(&t, 0),
                path: token_string(&t, 1),
                version: token_string(&t, 2),
            },
        )
    }

    /// `"<method> <path> <version>\r\n"`.
    pub fn to_string(&self) -> (r: String)
        ensures
            r@ == http_line_text(self@),
    {
        let mut v: Vec<char> = Vec::new();
        push_str(&mut v, self.method.as_str());
        v.push(' ');
        push_str(&mut v, self.path.as_str());
        v.push(' ');
        push_str(&mut v, self.version.as_str());
        v.push('\r');
        v.push('\n');
        string_from_chars(v.as_slice())
    }

    /// The request line's UTF-8 bytes.
    pub fn into_bytes(&self) -> (r: Vec<u8>)
        ensures
            r@ == vstd::utf8::encode_utf8(http_line_text(self@)),
    {
        let s = self.to_string();
        str_bytes(s.as_str())
    }
}

// ---------------------------------------------------------------------------
// Response line
// ---------------------------------------------------------------------------
/// An HTTP response line: version, status code and the first word of the
/// reason phrase.
pub struct ResponseLine {
    pub version: String,
    pub status_code: u16,
    pub message: Option<String>,
}

/// The abstract value of an optional text.
pub open spec fn opt_view(o: Option<String>) -> Option<Seq<char>> {
    match o {
        Some(s) => Some(s@),
        None => None,
    }
}

impl View for ResponseLine {
    type V = (Seq<char>, u16, Option<Seq<char>>);

    open spec fn view(&self) -> (Seq<char>, u16, Option<Seq<char>>) {
        (self.version@, self.status_code, opt_view(self.message))
    }
}

/// The text of a response line; a missing reason phrase leaves the field
/// empty.
pub open spec fn response_line_text(l: (Seq<char>, u16, Option<Seq<char>>)) -> Seq<char> {
    let msg = match l.2 {
        Some(m) => m,
        None => Seq::<char>::empty(),
    };
    l.0 + sp() + number::dec(l.1 as nat) + sp() + msg + crlf_chars()
}

/// The status code word of a response line is a valid code, where there is
/// one (a line whose code does not read as a `u16` is refused by a panic).
pub open spec fn response_code_ok(s: Seq<char>) -> bool {
    let t = text::tokens(s);
    t.len() >= 2 ==> number::parse_u16_spec(t[1]) is Some
}

/// What parsing a response line gives.
pub open spec fn response_line_parse(s: Seq<char>) -> Result<(Seq<char>, u16, Option<Seq<char>>), ErrorV> {
    let t = text::tokens(s);
    if t.len() == 0 {
        Err(ErrorV::ResponseLineInvalid("Version missing"@))
    } else if t.len() == 1 {
        Err(ErrorV::ResponseLineInvalid("Status code missing"@))
    } else {
        Ok(
            (
                t[0],
                number::parse_u16_spec(t[1]).unwrap(),
                if t.len() >= 3 {
                    Some(t[2])
                } else {
                    None
                },
            ),
        )
    }
}

impl ResponseLine {
    pub fn new(version: String, status_code: u16, message: Option<String>) -> (r: Self)
        ensures
            r.version == version,
            r.status_code == status_code,
            r.message == message,
    {
        ResponseLine { version, status_code, message }
    }

    /// Reads version, status code and the first word of the reason phrase.
    pub fn parse(line: &str) -> (r: Result<Self, Error>)
        requires
            response_code_ok(line@),
        ensures
            crate::error::result_view(r) == response_line_parse(line@),
    {
        let cs = chars_of(line);
        let t = split_ws(cs.as_slice());
        assert(text::views(t@).len() == t@.len());
        if t.len() == 0 {
            return Err(Error::ResponseLineInvalid(String::from_str("Version missing")));
        }
        if t.len() == 1 {
            return Err(Error::ResponseLineInvalid(String::from_str("Status code missing")));
        }
        assert(text::views(t@)[1] == t@[1]@);
        let code = match number::parse_u16(t[1].as_slice()) {
            Some(c) => c,
            None => {
                return Err(Error::ResponseLineInvalid(String::from_str("Status code missing")));
            },
        };
        let message = if t.len() >= 3 {
            Some(token_string(&t, 2))
        } else {
            None
        };
        Ok(ResponseLine { version: token_string(&t, 0), status_code: code, message })
    }

    /// `"<version> <code> <message>\r\n"`.
    pub fn to_string(&self) -> (r: String)
        ensures
            r@ == response_line_text(self@),
    {
        let mut v: Vec<char> = Vec::new();
        push_str(&mut v, self.version.as_str());
        v.push(' ');
        number::push_dec(&mut v, self.status_code);
        v.push(' ');
        match &self.message {
            Some(m) => push_str(&mut v, m.as_str()),
            None => {},
        }
        v.push('\r');
        v.push('\n');
        string_from_chars(v.as_slice())
    }

    /// The response line's UTF-8 bytes.
    pub fn into_bytes(&self) -> (r: Vec<u8>)
        ensures
            r@ == vstd::utf8::encode_utf8(response_line_text(self@)),
    {
        let s = self.to_string();
        str_bytes(s.as_str())
    }
}

// ---------------------------------------------------------------------------
// Status line
// ---------------------------------------------------------------------------
/// The first HTTP line of a message: a request line or a response line.
pub enum StatusLine {
    Request(HttpLine),
    Response(ResponseLine),
}

/// The abstract value of a status line.
pub enum StatusLineV {
    Request((Seq<char>, Seq<char>, Seq<char>)),
    Response((Seq<char>, u16, Option<Seq<char>>)),
}

impl View for StatusLine {
    type V = StatusLineV;

    open spec fn view(&self) -> StatusLineV {
        match self {
            StatusLine::Request(l) => StatusLineV::Request(l@),
            StatusLine::Response(l) => StatusLineV::Response(l@),
        }
    }
}

/// The text of a status line.
pub open spec fn status_line_text(s: StatusLineV) -> Seq<char> {
    match s {
        StatusLineV::Request(l) => http_line_text(l),
        StatusLineV::Response(l) => response_line_text(l),
    }
}

/// A request method the tunnel carries.
pub open spec fn is_method_word(w: Seq<char>) -> bool {
    w == "GET"@ || w == "POST"@ || w == "PUT"@ || w == "PATCH"@ || w == "DELETE"@
}

/// A response version the tunnel carries.
pub open spec fn is_response_word(w: Seq<char>) -> bool {
    w == "HTTP/1.1"@ || w == "HTTP/1.0"@
}

/// What parsing a status line gives: a request line when it starts with a
/// known method, a response line when it starts with `HTTP/1.1` or
/// `HTTP/1.0`, else `TunnelStatusLineInvalid`.
pub open spec fn status_line_parse(s: Seq<char>) -> Result<StatusLineV, ErrorV> {
    let t = text::tokens(s);
    if t.len() == 0 {
        Err(ErrorV::TunnelStatusLineInvalid)
    } else if is_method_word(t[0]) {
        match http_line_parse(s) {
            Ok(l) => Ok(StatusLineV::Request(l)),
            Err(e) => Err(e),
        }
    } else if is_response_word(t[0]) {
        match response_line_parse(s) {
            Ok(l) => Ok(StatusLineV::Response(l)),
            Err(e) => Err(e),
        }
    } else {
        Err(ErrorV::TunnelStatusLineInvalid)
    }
}

/// The line is one that `parse_status_line` reads without a panic.
pub open spec fn status_line_ok(s: Seq<char>) -> bool {
    let t = text::tokens(s);
    t.len() > 0 && is_response_word(t[0]) ==> response_code_ok(s)
}

impl StatusLine {
    /// The line's UTF-8 bytes.
    pub fn into_bytes(&self) -> (r: Vec<u8>)
        ensures
            r@ == vstd::utf8::encode_utf8(status_line_text(self@)),
    {
        match self {
            StatusLine::Request(line) => line.into_bytes(),
            StatusLine::Response(line) => line.into_bytes(),
        }
    }

    pub fn is_request(&self) -> (r: bool)
        ensures
            r == (self@ is Request),
    {
        match self {
            StatusLine::Request(_) => true,
            _ => false,
        }
    }

    pub fn is_response(&self) -> (r: bool)
        ensures
            r == (self@ is Response),
    {
        match self {
            StatusLine::Response(_) => true,
            _ => false,
        }
    }

    /// A response with status 200.
    pub fn is_ok(&self) -> (r: bool)
        ensures
            r == (self@ matches StatusLineV::Response(l) && l.1 == 200),
    {
        match self {
            StatusLine::Response(line) => line.status_code == 200,
            _ => false,
        }
    }
}

fn is_method_token(w: &[char]) -> (r: bool)
    ensures
        r == is_method_word(w@),
{
    eq_str(w, "GET") || eq_str(w, "POST") || eq_str(w, "PUT") || eq_str(w, "PATCH") || eq_str(
        w,
        "DELETE",
    )
}

fn is_response_token(w: &[char]) -> (r: bool)
    ensures
        r == is_response_word(w@),
{
    eq_str(w, "HTTP/1.1") || eq_str(w, "HTTP/1.0")
}

/// Reads a status line by its first word.
pub fn parse_status_line(line: &str) -> (r: Result<StatusLine, Error>)
    requires
        status_line_ok(line@),
    ensures
        crate::error::result_view(r) == status_line_parse(line@),
{
    let cs = chars_of(line);
    let t = split_ws(cs.as_slice());
    assert(text::views(t@).len() == t@.len());
    if t.len() == 0 {
        return Err(Error::TunnelStatusLineInvalid);
    }
    assert(text::views(t@)[0] == t@[0]@);
    if is_method_token(t[0].as_slice()) {
        match HttpLine::parse(line) {
            Ok(st) => Ok(StatusLine::Request(st)),
            Err(e) => Err(e),
        }
    } else if is_response_token(t[0].as_slice()) {
        match ResponseLine::parse(line) {
            Ok(st) => Ok(StatusLine::Response(st)),
            Err(e) => Err(e),
        }
    } else {
        Err(Error::TunnelStatusLineInvalid)
    }
}


/// Executable `status_line_ok`: whether `parse_status_line` reads the line
/// without a panic.
pub fn status_line_checked(line: &str) -> (r: bool)
    ensures
        r == status_line_ok(line@),
{
    let cs = chars_of(line);
    let t = split_ws(cs.as_slice());
    assert(text::views(t@).len() == t@.len());
    if t.len() == 0 {
        return true;
    }
    assert(text::views(t@)[0] == t@[0]@);
    if !is_response_token(t[0].as_slice()) {
        return true;
    }
    if t.len() < 2 {
        return true;
    }
    assert(text::views(t@)[1] == t@[1]@);
    number::parse_u16(t[1].as_slice()).is_some()
}

// ---------------------------------------------------------------------------
// Buffer framing
// ---------------------------------------------------------------------------
/// `"\r\n\r\n"`, the separator between headers and body.
pub open spec fn crlf2() -> Seq<u8> {
    seq![13u8, 10, 13, 10]
}

/// The header part of a buffer and the index where its body starts: the
/// header ends at the first `"\r\n\r\n"`; a body starts after it when bytes
/// follow.
pub open spec fn header_split(b: Seq<u8>) -> (Seq<u8>, Option<int>) {
    match bytes::find_pat_from(b, crlf2(), 0) {
        Some(p) => (
            b.take(p),
            if p + 4 < b.len() {
                Some(p + 4)
            } else {
                None
            },
        ),
        None => (b, None),
    }
}

/// The header text of a buffer and where its body starts.
pub struct BufferHeader {
    pub data: String,
    pub body_start: Option<usize>,
}

/// Reads the header text of a non-empty buffer.
pub fn read_buffer_header(buffer: &[u8]) -> (r: Option<BufferHeader>)
    ensures
        match r {
            None => buffer@.len() == 0,
            Some(h) => {
                &&& buffer@.len() > 0
                &&& h.data@ == text::decoded_utf8(header_split(buffer@).0)
                &&& match h.body_start {
                    Some(s) => header_split(buffer@).1 == Some(s as int),
                    None => header_split(buffer@).1 is None,
                }
            },
        },
{
    if buffer.len() == 0 {
        return None;
    }
    let sep: [u8; 4] = [13, 10, 13, 10];
    assert(sep@ =~= crlf2());
    match bytes::find_pattern(buffer, &sep, 0) {
        Some(pos) => {
            let head = bytes::sub_bytes(buffer, 0, pos);
            assert(head@ =~= buffer@.take(pos as int));
            let data = decode_lossy(head.as_slice());
            let body_start = if pos + 4 < buffer.len() {
                Some(pos + 4)
            } else {
                None
            };
            Some(BufferHeader { data, body_start })
        },
        None => {
            let data = decode_lossy(buffer);
            Some(BufferHeader { data, body_start: None })
        },
    }
}

/// The length of the first `n` bytes without a final end marker, when they
/// end with one and something precedes it.
pub open spec fn eof_trim(b: Seq<u8>) -> Option<int> {
    let n = b.len() as int;
    if n >= 15 && b.skip(n - 15) == eof_marker() && n - 15 > 0 {
        Some(n - 15)
    } else {
        None
    }
}

/// `eof_trim` of `buffer[..n]`.
pub fn len_without_eof_marker(buffer: &[u8], n: usize) -> (r: Option<usize>)
    requires
        n <= buffer@.len(),
    ensures
        match r {
            Some(k) => eof_trim(buffer@.take(n as int)) == Some(k as int),
            None => eof_trim(buffer@.take(n as int)) is None,
        },
{
    let marker = MSG_EOF;
    assert(marker@ =~= eof_marker());
    if n >= 15 {
        let ok = bytes::matches_at(buffer, &marker, n - 15);
        assert(buffer@.take(n as int).skip(n - 15) =~= buffer@.subrange(n - 15, n as int));
        if ok {
            let reduced = n - 15;
            if reduced > 0 && reduced < n {
                return Some(reduced);
            }
        }
    }
    None
}

// ---------------------------------------------------------------------------
// Header lines
// ---------------------------------------------------------------------------
/// A header line read as a name and a value: the trimmed line, when it holds
/// at least 3 bytes and a `':'`, split at the first `':'`; the name lower-cased,
/// the value trimmed.
pub open spec fn header_item(l: Seq<char>) -> Option<(Seq<char>, Seq<char>)> {
    let h = text::trim(l);
    let p = text::find_from(h, ':', 0);
    if vstd::utf8::encode_utf8(h).len() >= 3 && p < h.len() {
        Some((text::lower_text(h.take(p)), text::trim(h.skip(p + 1))))
    } else {
        None
    }
}

/// The header items of a sequence of lines, in order.
pub open spec fn header_items(ls: Seq<Seq<char>>) -> Seq<(Seq<char>, Seq<char>)>
    decreases ls.len(),
{
    if ls.len() == 0 {
        seq![]
    } else {
        let r = header_items(ls.drop_last());
        match header_item(ls.last()) {
            Some(x) => r.push(x),
            None => r,
        }
    }
}

/// The contents of a header list.
pub open spec fn pairs_view(v: Seq<(String, String)>) -> Seq<(Seq<char>, Seq<char>)> {
    v.map_values(|p: (String, String)| (p.0@, p.1@))
}

/// Executable `header_item`.
pub fn read_header_item(l: &[char]) -> (r: Option<(String, String)>)
    ensures
        match r {
            Some(p) => header_item(l@) == Some((p.0@, p.1@)),
            None => header_item(l@) is None,
        },
{
    let h = trim_chars(l);
    let hs = string_from_chars(h.as_slice());
    if str_bytes(hs.as_str()).len() < 3 {
        return None;
    }
    let p = find_char(h.as_slice(), ':');
    if p >= h.len() {
        return None;
    }
    let k = string_from_chars(sub_chars(h.as_slice(), 0, p).as_slice());
    let v = trim_chars(sub_chars(h.as_slice(), p + 1, h.len()).as_slice());
    assert(h@.take(p as int) =~= h@.subrange(0, p as int));
    assert(h@.skip(p + 1) =~= h@.subrange(p + 1, h@.len() as int));
    Some((to_lowercase(k.as_str()), string_from_chars(v.as_slice())))
}

/// The last `x-webhook-req-id` header decides the message id: its value read
/// as a UUID, `None` when it does not read as one or there is none.
pub open spec fn req_id_of(hs: Seq<(Seq<char>, Seq<char>)>) -> Option<u128>
    decreases hs.len(),
{
    if hs.len() == 0 {
        None
    } else if hs.last().0 == WEBHOOK_REQ_ID@ {
        id::uuid_parse(hs.last().1)
    } else {
        req_id_of(hs.drop_last())
    }
}

/// The text of the last `x-webhook-req-id` header, if any.
pub open spec fn req_id_text(hs: Seq<(Seq<char>, Seq<char>)>) -> Option<Seq<char>>
    decreases hs.len(),
{
    if hs.len() == 0 {
        None
    } else if hs.last().0 == WEBHOOK_REQ_ID@ {
        Some(hs.last().1)
    } else {
        req_id_text(hs.drop_last())
    }
}

/// The value of the first header named `key`.
pub open spec fn header_value(hs: Seq<(Seq<char>, Seq<char>)>, key: Seq<char>) -> Option<Seq<char>>
    decreases hs.len(),
{
    if hs.len() == 0 {
        None
    } else if hs[0].0 == key {
        Some(hs[0].1)
    } else {
        header_value(hs.drop_first(), key)
    }
}

/// The bytes of one header line `"<name>: <value>\r\n"`.
pub open spec fn header_line_bytes(h: (Seq<char>, Seq<char>)) -> Seq<u8> {
    vstd::utf8::encode_utf8(h.0) + seq![58u8, 32u8] + vstd::utf8::encode_utf8(h.1) + seq![13u8, 10u8]
}

/// The bytes of a header list, one line each, in order.
pub open spec fn headers_bytes(hs: Seq<(Seq<char>, Seq<char>)>) -> Seq<u8>
    decreases hs.len(),
{
    if hs.len() == 0 {
        seq![]
    } else {
        headers_bytes(hs.drop_last()) + header_line_bytes(hs.last())
    }
}

/// The bytes of a body: nothing when empty, else a blank line and the body.
pub open spec fn body_bytes(body: Seq<u8>) -> Seq<u8> {
    if body.len() > 0 {
        seq![13u8, 10u8] + body
    } else {
        seq![]
    }
}

/// Appends the header lines to a buffer.
fn append_headers(buf: &mut Vec<u8>, hs: &Vec<(String, String)>)
    ensures
        final(buf)@ == old(buf)@ + headers_bytes(pairs_view(hs@)),
{
    let mut i: usize = 0;
    while i < hs.len()
        invariant
            i <= hs@.len(),
            buf@ == old(buf)@ + headers_bytes(pairs_view(hs@).take(i as int)),
        decreases hs.len() - i,
    {
        let ghost before = buf@;
        let k = str_bytes(hs[i].0.as_str());
        let v = str_bytes(hs[i].1.as_str());
        bytes::append_bytes(buf, k.as_slice());
        buf.push(58);
        buf.push(32);
        bytes::append_bytes(buf, v.as_slice());
        buf.push(13);
        buf.push(10);
        assert(pairs_view(hs@).take(i + 1).drop_last() =~= pairs_view(hs@).take(i as int));
        assert(buf@ =~= before + header_line_bytes(pairs_view(hs@)[i as int]));
        i = i + 1;
    }
    assert(pairs_view(hs@).take(hs@.len() as int) =~= pairs_view(hs@));
}

/// Looks up the first header named `key`.
fn find_header<'a>(hs: &'a Vec<(String, String)>, key: &str) -> (r: Option<&'a str>)
    ensures
        match r {
            Some(v) => header_value(pairs_view(hs@), key@) == Some(v@),
            None => header_value(pairs_view(hs@), key@) is None,
        },
{
    let mut i: usize = 0;
    assert(pairs_view(hs@).skip(0) =~= pairs_view(hs@));
    while i < hs.len()
        invariant
            i <= hs@.len(),
            header_value(pairs_view(hs@), key@) == header_value(pairs_view(hs@).skip(i as int), key@),
        decreases hs.len() - i,
    {
        assert(pairs_view(hs@).skip(i as int).drop_first() =~= pairs_view(hs@).skip(i + 1));
        let k = chars_of(hs[i].0.as_str());
        if eq_str(k.as_slice(), key) {
            return Some(hs[i].1.as_str());
        }
        i = i + 1;
    }
    None
}


/// Reads the header items of `ls[from..]`.
fn read_header_items(ls: &Vec<Vec<char>>, from: usize) -> (r: Vec<(String, String)>)
    requires
        from <= ls@.len(),
    ensures
        pairs_view(r@) == header_items(text::views(ls@).skip(from as int)),
{
    let mut r: Vec<(String, String)> = Vec::new();
    let mut i: usize = from;
    assert(text::views(ls@).subrange(from as int, from as int) =~= Seq::<Seq<char>>::empty());
    assert(pairs_view(r@) =~= Seq::<(Seq<char>, Seq<char>)>::empty());
    while i < ls.len()
        invariant
            from <= i <= ls@.len(),
            pairs_view(r@) == header_items(text::views(ls@).subrange(from as int, i as int)),
        decreases ls.len() - i,
    {
        let ghost before = r@;
        assert(text::views(ls@).subrange(from as int, i + 1).drop_last() =~= text::views(
            ls@,
        ).subrange(from as int, i as int));
        assert(text::views(ls@).subrange(from as int, i + 1).last() == ls@[i as int]@);
        match read_header_item(ls[i].as_slice()) {
            Some(item) => {
                r.push(item);
                assert(pairs_view(r@) =~= pairs_view(before).push((item.0@, item.1@)));
            },
            None => {},
        }
        i = i + 1;
    }
    assert(text::views(ls@).subrange(from as int, ls@.len() as int) =~= text::views(ls@).skip(
        from as int,
    ));
    r
}

/// The id the `x-webhook-req-id` headers give.
fn read_req_id(hs: &Vec<(String, String)>) -> (r: Option<u128>)
    ensures
        r == req_id_of(pairs_view(hs@)),
        forall|v: u128|
            #![trigger id::uuid_text(v)]
            req_id_text(pairs_view(hs@)) == Some(id::uuid_text(v)) ==> id::uuid_parse(
                id::uuid_text(v),
            ) == Some(v),
{
    let mut id: Option<u128> = None;
    let mut i: usize = 0;
    while i < hs.len()
        invariant
            i <= hs@.len(),
            id == req_id_of(pairs_view(hs@).take(i as int)),
            forall|v: u128|
                #![trigger id::uuid_text(v)]
                req_id_text(pairs_view(hs@).take(i as int)) == Some(id::uuid_text(v))
                    ==> id::uuid_parse(id::uuid_text(v)) == Some(v),
        decreases hs.len() - i,
    {
        assert(pairs_view(hs@).take(i + 1).drop_last() =~= pairs_view(hs@).take(i as int));
        let k = chars_of(hs[i].0.as_str());
        if eq_str(k.as_slice(), WEBHOOK_REQ_ID) {
            id = id::parse_uuid(hs[i].1.as_str());
        }
        i = i + 1;
    }
    assert(pairs_view(hs@).take(hs@.len() as int) =~= pairs_view(hs@));
    id
}

/// The body of a buffer: the bytes from the body start on.
pub open spec fn body_of(b: Seq<u8>, start: Option<int>) -> Seq<u8> {
    match start {
        Some(s) => b.skip(s),
        None => seq![],
    }
}

/// Copies the body of a buffer.
fn read_body(b: &[u8], start: Option<usize>) -> (r: Vec<u8>)
    requires
        start matches Some(s) ==> s <= b@.len(),
    ensures
        r@ == body_of(
            b@,
            match start {
                Some(s) => Some(s as int),
                None => None,
            },
        ),
{
    match start {
        Some(s) => {
            let r = bytes::sub_bytes(b, s, b.len());
            assert(r@ =~= b@.skip(s as int));
            r
        },
        None => Vec::new(),
    }
}

/// The header split of a buffer finds its body start within the buffer.
proof fn lemma_header_split_bounds(b: Seq<u8>)
    ensures
        header_split(b).1 matches Some(s) ==> 0 <= s <= b.len(),
{
    bytes::lemma_find_pat_from_bounds(b, crlf2(), 0);
}

// ---------------------------------------------------------------------------
// Messages between the server and the client
// ---------------------------------------------------------------------------
/// A message of the tunnel protocol: webhook header line, HTTP status line,
/// HTTP headers and body.
pub struct TunnelMessage2 {
    pub header: WebhookHeader,
    pub http_line: StatusLine,
    pub http_headers: Vec<(String, String)>,
    pub http_body: Vec<u8>,
}

/// The abstract value of a [`TunnelMessage2`].
pub struct TunnelMessage2V {
    pub header: (Seq<char>, u128),
    pub http_line: StatusLineV,
    pub http_headers: Seq<(Seq<char>, Seq<char>)>,
    pub http_body: Seq<u8>,
}

impl View for TunnelMessage2 {
    type V = TunnelMessage2V;

    open spec fn view(&self) -> TunnelMessage2V {
        TunnelMessage2V {
            header: self.header@,
            http_line: self.http_line@,
            http_headers: pairs_view(self.http_headers@),
            http_body: self.http_body@,
        }
    }
}

/// The lines of the header text of a buffer.
pub open spec fn header_lines(b: Seq<u8>) -> Seq<Seq<char>> {
    text::lines(text::decoded_utf8(header_split(b).0))
}

/// What parsing a buffer as a [`TunnelMessage2`] gives: the first line is
/// the webhook header line, the second the status line, the rest header
/// lines; the body follows the first blank line.
pub open spec fn message2_parse(b: Seq<u8>) -> Result<TunnelMessage2V, ErrorV> {
    let ls = header_lines(b);
    if b.len() == 0 || ls.len() == 0 {
        Err(ErrorV::TunnelMessageInvalid)
    } else {
        match webhook_header_parse(text::trim(ls[0])) {
            None => Err(ErrorV::TunnelMessageInvalid),
            Some(h) => if ls.len() < 2 {
                Err(ErrorV::TunnelMessageInvalid)
            } else {
                match status_line_parse(text::trim(ls[1])) {
                    Err(e) => Err(e),
                    Ok(st) => Ok(
                        TunnelMessage2V {
                            header: h,
                            http_line: st,
                            http_headers: header_items(ls.skip(2)),
                            http_body: body_of(b, header_split(b).1),
                        },
                    ),
                }
            },
        }
    }
}

/// A buffer that [`TunnelMessage2::from_buffer`] reads without a panic: one
/// whose status line, when reached, has a readable status code.
pub open spec fn message2_parse_ok(b: Seq<u8>) -> bool {
    let ls = header_lines(b);
    b.len() > 0 && ls.len() >= 2 && webhook_header_parse(text::trim(ls[0])) is Some
        ==> status_line_ok(text::trim(ls[1]))
}

/// A buffer whose webhook header line carries the id text `w`.
pub open spec fn message2_id_at(b: Seq<u8>, w: Seq<char>) -> bool {
    let ls = header_lines(b);
    b.len() > 0 && ls.len() > 0 && uuid_word_at(text::trim(ls[0]), w)
}

/// The bytes of a [`TunnelMessage2`] before its end marker: header line,
/// status line, header lines, and the body after a blank line when there is
/// one.
pub open spec fn message2_frame(m: TunnelMessage2V) -> Seq<u8> {
    vstd::utf8::encode_utf8(webhook_header_text(m.header.0, m.header.1)) + vstd::utf8::encode_utf8(
        status_line_text(m.http_line),
    ) + headers_bytes(m.http_headers) + body_bytes(m.http_body)
}

/// The bytes of a [`TunnelMessage2`]: its frame followed by the end marker.
pub open spec fn message2_bytes(m: TunnelMessage2V) -> Seq<u8> {
    message2_frame(m) + eof_marker()
}

impl TunnelMessage2 {
    /// A message with no headers and no body.
    pub fn new(header: WebhookHeader, http_line: StatusLine) -> (r: Self)
        ensures
            r.header == header,
            r.http_line == http_line,
            r.http_headers@.len() == 0,
            r.http_body@.len() == 0,
    {
        TunnelMessage2 { header, http_line, http_headers: Vec::new(), http_body: Vec::new() }
    }

    /// Parses a buffer, or `None` where [`TunnelMessage2::from_buffer`] would
    /// panic.
    pub fn checked_from_buffer(buffer: &[u8]) -> (r: Option<Result<Self, Error>>)
        ensures
            r is None <==> !message2_parse_ok(buffer@),
            r matches Some(x) ==> crate::error::result_view(x) == message2_parse(buffer@),
            forall|v: u128|
                #![trigger id::uuid_text(v)]
                message2_id_at(buffer@, id::uuid_text(v)) ==> id::uuid_parse(id::uuid_text(v))
                    == Some(v),
    {
        let header = match read_buffer_header(buffer) {
            None => {
                return Some(Err(Error::TunnelMessageInvalid));
            },
            Some(h) => h,
        };
        proof {
            lemma_header_split_bounds(buffer@);
        }
        let data = chars_of(header.data.as_str());
        let ls = split_lines(data.as_slice());
        assert(text::views(ls@) == header_lines(buffer@));
        assert(text::views(ls@).len() == ls@.len());
        if ls.len() == 0 {
            return Some(Err(Error::TunnelMessageInvalid));
        }
        assert(text::views(ls@)[0] == ls@[0]@);
        let first = string_from_chars(trim_chars(ls[0].as_slice()).as_slice());
        let wh = match WebhookHeader::parse_str(first.as_str()) {
            Ok(h) => h,
            Err(_) => {
                return Some(Err(Error::TunnelMessageInvalid));
            },
        };
        if ls.len() < 2 {
            return Some(Err(Error::TunnelMessageInvalid));
        }
        assert(text::views(ls@)[1] == ls@[1]@);
        let second = string_from_chars(trim_chars(ls[1].as_slice()).as_slice());
        if !status_line_checked(second.as_str()) {
            return None;
        }
        let http_line = match parse_status_line(second.as_str()) {
            Ok(st) => st,
            Err(e) => {
                return Some(Err(e));
            },
        };
        let http_headers = read_header_items(&ls, 2);
        let http_body = read_body(buffer, header.body_start);
        Some(Ok(TunnelMessage2 { header: wh, http_line, http_headers, http_body }))
    }

    /// Parses a buffer for the webhook header, status line, headers and body.
    pub fn from_buffer(buffer: &[u8]) -> (r: Result<Self, Error>)
        requires
            message2_parse_ok(buffer@),
        ensures
            crate::error::result_view(r) == message2_parse(buffer@),
            forall|v: u128|
                #![trigger id::uuid_text(v)]
                message2_id_at(buffer@, id::uuid_text(v)) ==> id::uuid_parse(id::uuid_text(v))
                    == Some(v),
    {
        match Self::checked_from_buffer(buffer) {
            Some(r) => r,
            None => {
                proof {
                    assert(false);
                }
                Err(Error::TunnelMessageInvalid)
            },
        }
    }

    /// The message's bytes: header line, status line, header lines, the
    /// body after a blank line when there is one, and the end marker.
    pub fn into_bytes(&self) -> (r: Vec<u8>)
        ensures
            r@ == message2_bytes(self@),
    {
        let mut buffer: Vec<u8> = Vec::new();
        let h = self.header.into_bytes();
        bytes::append_bytes(&mut buffer, h.as_slice());
        let st = self.http_line.into_bytes();
        bytes::append_bytes(&mut buffer, st.as_slice());
        append_headers(&mut buffer, &self.http_headers);
        if self.http_body.len() > 0 {
            buffer.push(13);
            buffer.push(10);
            bytes::append_bytes(&mut buffer, self.http_body.as_slice());
        }
        proof {
            if self.http_body@.len() > 0 {
                assert(buffer@ =~= message2_frame(self@));
            } else {
                assert(buffer@ =~= message2_frame(self@));
            }
        }
        let marker = MSG_EOF;
        bytes::append_bytes(&mut buffer, &marker);
        assert(marker@ =~= eof_marker());
        assert(buffer@ =~= message2_bytes(self@));
        buffer
    }
}


/// A message on the tunnel, as the earlier protocol frames it: status line,
/// headers (with the message id among them), body, and whether the end
/// marker has been seen.
pub struct TunnelMessage {
    pub id: u128,
    pub status_line: StatusLine,
    pub headers: Vec<(String, String)>,
    pub initial_body: Vec<u8>,
    pub complete: bool,
}

/// The abstract value of a [`TunnelMessage`].
pub struct TunnelMessageV {
    pub id: u128,
    pub status_line: StatusLineV,
    pub headers: Seq<(Seq<char>, Seq<char>)>,
    pub initial_body: Seq<u8>,
    pub complete: bool,
}

impl View for TunnelMessage {
    type V = TunnelMessageV;

    open spec fn view(&self) -> TunnelMessageV {
        TunnelMessageV {
            id: self.id,
            status_line: self.status_line@,
            headers: pairs_view(self.headers@),
            initial_body: self.initial_body@,
            complete: self.complete,
        }
    }
}

/// The part of a buffer that holds the message, and whether an end marker
/// followed it.
pub open spec fn frame_of(b: Seq<u8>) -> (Seq<u8>, bool) {
    match eof_trim(b) {
        Some(n) => (b.take(n), true),
        None => (b, false),
    }
}

/// What parsing a buffer as a [`TunnelMessage`] gives: a final end marker is
/// cut off and marks the message complete; the first line is the status
/// line, the rest header lines; the id comes from the `x-webhook-req-id`
/// header; the body follows the first blank line.
pub open spec fn message_parse(b: Seq<u8>) -> Result<TunnelMessageV, ErrorV> {
    let (f, complete) = frame_of(b);
    let ls = header_lines(f);
    if f.len() == 0 {
        Err(ErrorV::TunnelMessageInvalid)
    } else {
        match status_line_parse(text::trim(ls[0])) {
            Err(e) => Err(e),
            Ok(st) => {
                let hs = header_items(ls.skip(1));
                Ok(
                    TunnelMessageV {
                        id: req_id_of(hs).unwrap(),
                        status_line: st,
                        headers: hs,
                        initial_body: body_of(f, header_split(f).1),
                        complete,
                    },
                )
            },
        }
    }
}

/// A buffer that [`TunnelMessage::from_buffer`] reads without a panic: its
/// header text has a first line, the status line has a readable status code,
/// and, where the status line reads, an `x-webhook-req-id` header gives the
/// id.
pub open spec fn message_parse_ok(b: Seq<u8>) -> bool {
    let (f, complete) = frame_of(b);
    let ls = header_lines(f);
    f.len() > 0 ==> {
        &&& ls.len() > 0
        &&& status_line_ok(text::trim(ls[0]))
        &&& (status_line_parse(text::trim(ls[0])) is Ok ==> req_id_of(header_items(ls.skip(1)))
            is Some)
    }
}

/// The text of the id the `x-webhook-req-id` header of a buffer gives,
/// where the parser reaches the headers: its status line reads.
pub open spec fn message_id_text(b: Seq<u8>) -> Option<Seq<char>> {
    let (f, complete) = frame_of(b);
    let ls = header_lines(f);
    if f.len() > 0 && ls.len() > 0 && status_line_ok(text::trim(ls[0])) && status_line_parse(
        text::trim(ls[0]),
    ) is Ok {
        req_id_text(header_items(ls.skip(1)))
    } else {
        None
    }
}

/// The bytes of a [`TunnelMessage`]: status line, header lines, the body
/// after a blank line when there is one, and the end marker.
pub open spec fn message_bytes(m: TunnelMessageV) -> Seq<u8> {
    vstd::utf8::encode_utf8(status_line_text(m.status_line)) + headers_bytes(m.headers) + body_bytes(
        m.initial_body,
    ) + eof_marker()
}

/// The header list of a new message: just its id.
pub open spec fn id_headers(id: u128) -> Seq<(Seq<char>, Seq<char>)> {
    seq![(WEBHOOK_REQ_ID@, id::uuid_text(id))]
}

/// Where the next message starts after `buffer` has been added to a body:
/// just after the first end marker, if anything follows it.
pub open spec fn accumulate_next(b: Seq<u8>) -> Option<int> {
    match bytes::find_pat_from(b, eof_marker(), 0) {
        Some(p) => if p + 15 < b.len() {
            Some(p + 15)
        } else {
            None
        },
        None => None,
    }
}

/// The message starts at `start` in `b` ends just after the first end
/// marker there, or at the end of `b`.
pub open spec fn chunk_end(b: Seq<u8>, start: int) -> int {
    match bytes::find_pat_from(b, eof_marker(), start) {
        Some(p) => p + 15,
        None => b.len() as int,
    }
}

/// A message found in a buffer ends after it starts and within the buffer.
pub proof fn lemma_chunk_end(b: Seq<u8>, start: int)
    requires
        0 <= start < b.len(),
    ensures
        start < chunk_end(b, start) <= b.len(),
{
    bytes::lemma_find_pat_from_bounds(b, eof_marker(), start);
}

/// What parsing `b[start..]` as a run of messages gives: the messages in
/// order, or the first error.
pub open spec fn messages_parse_from(b: Seq<u8>, start: int) -> Result<Seq<TunnelMessageV>, ErrorV>
    decreases b.len() - start,
{
    if start < 0 || start >= b.len() {
        Ok(seq![])
    } else {
        let end = chunk_end(b, start);
        proof {
            lemma_chunk_end(b, start);
        }
        match message_parse(b.subrange(start, end)) {
            Err(e) => Err(e),
            Ok(m) => match messages_parse_from(b, end) {
                Ok(ms) => Ok(seq![m] + ms),
                Err(e) => Err(e),
            },
        }
    }
}

/// `b[start..]` reads as a run of messages without a panic.
pub open spec fn messages_parse_ok_from(b: Seq<u8>, start: int) -> bool
    decreases b.len() - start,
{
    if start < 0 || start >= b.len() {
        true
    } else {
        let end = chunk_end(b, start);
        proof {
            lemma_chunk_end(b, start);
        }
        message_parse_ok(b.subrange(start, end)) && (message_parse(b.subrange(start, end)) is Ok
            ==> messages_parse_ok_from(b, end))
    }
}

/// The abstract values of a list of messages.
pub open spec fn messages_view(v: Seq<TunnelMessage>) -> Seq<TunnelMessageV> {
    v.map_values(|m: TunnelMessage| m@)
}

fn header_pair(k: &str, v: String) -> (r: (String, String))
    ensures
        r.0@ == k@,
        r.1 == v,
{
    (String::from_str(k), v)
}

impl TunnelMessage {
    /// A complete message with the given id and status line, no body, and the
    /// id as its one header.
    pub fn new(id: u128, status_line: StatusLine) -> (r: Self)
        ensures
            r@ == (TunnelMessageV {
                id,
                status_line: status_line@,
                headers: id_headers(id),
                initial_body: seq![],
                complete: true,
            }),
    {
        let mut headers: Vec<(String, String)> = Vec::new();
        headers.push(header_pair(WEBHOOK_REQ_ID, id::uuid_string(id)));
        let r = TunnelMessage {
            id,
            status_line,
            headers,
            initial_body: Vec::new(),
            complete: true,
        };
        assert(r@.headers =~= id_headers(id));
        assert(r@.initial_body =~= Seq::<u8>::empty());
        r
    }

    /// An auth request, `POST /_x_webhook_auth HTTP/1.1`, carrying the token.
    pub fn with_auth_token(id: u128, token: String) -> (r: Self)
        ensures
            r@ == (TunnelMessageV {
                id,
                status_line: StatusLineV::Request(
                    ("POST"@, WEBHOOK_OP_AUTH_PATH@, "HTTP/1.1"@),
                ),
                headers: id_headers(id).push((WEBHOOK_OP@, WEBHOOK_OP_AUTH@)).push(
                    (WEBHOOK_TOKEN@, token@),
                ),
                initial_body: seq![],
                complete: true,
            }),
    {
        let st = StatusLine::Request(
            HttpLine::new(
                String::from_str("POST"),
                String::from_str(WEBHOOK_OP_AUTH_PATH),
                String::from_str("HTTP/1.1"),
            ),
        );
        let mut req = Self::new(id, st);
        let ghost h0 = req.headers@;
        req.headers.push(header_pair(WEBHOOK_OP, String::from_str(WEBHOOK_OP_AUTH)));
        req.headers.push(header_pair(WEBHOOK_TOKEN, token));
        assert(pairs_view(req.headers@) =~= pairs_view(h0).push((WEBHOOK_OP@, WEBHOOK_OP_AUTH@)).push(
            (WEBHOOK_TOKEN@, token@),
        ));
        req
    }

    /// An auth response accepting the client: `HTTP/1.1 200 OK`, body `OK`.
    pub fn with_auth_ok(id: u128) -> (r: Self)
        ensures
            r@ == (TunnelMessageV {
                id,
                status_line: StatusLineV::Response(("HTTP/1.1"@, 200u16, Some("OK"@))),
                headers: id_headers(id).push((WEBHOOK_OP@, WEBHOOK_OP_AUTH_RES@)),
                initial_body: vstd::utf8::encode_utf8("OK"@),
                complete: true,
            }),
    {
        let st = StatusLine::Response(
            ResponseLine::new(String::from_str("HTTP/1.1"), 200, Some(String::from_str("OK"))),
        );
        let mut res = Self::new(id, st);
        let ghost h0 = res.headers@;
        res.headers.push(header_pair(WEBHOOK_OP, String::from_str(WEBHOOK_OP_AUTH_RES)));
        assert(pairs_view(res.headers@) =~= pairs_view(h0).push((WEBHOOK_OP@, WEBHOOK_OP_AUTH_RES@)));
        res.initial_body = str_bytes("OK");
        res
    }

    /// An auth response refusing the client: `HTTP/1.1 401 Unauthorized`,
    /// body `Unauthorized`.
    pub fn with_auth_unauthorized(id: u128) -> (r: Self)
        ensures
            r@ == (TunnelMessageV {
                id,
                status_line: StatusLineV::Response(("HTTP/1.1"@, 401u16, Some("Unauthorized"@))),
                headers: id_headers(id).push((WEBHOOK_OP@, WEBHOOK_OP_AUTH_RES@)),
                initial_body: vstd::utf8::encode_utf8("Unauthorized"@),
                complete: true,
            }),
    {
        let st = StatusLine::Response(
            ResponseLine::new(
                String::from_str("HTTP/1.1"),
                401,
                Some(String::from_str("Unauthorized")),
            ),
        );
        let mut res = Self::new(id, st);
        let ghost h0 = res.headers@;
        res.headers.push(header_pair(WEBHOOK_OP, String::from_str(WEBHOOK_OP_AUTH_RES)));
        assert(pairs_view(res.headers@) =~= pairs_view(h0).push((WEBHOOK_OP@, WEBHOOK_OP_AUTH_RES@)));
        res.initial_body = str_bytes("Unauthorized");
        res
    }

    /// Parses a buffer, or `None` where [`TunnelMessage::from_buffer`] would
    /// panic.
    pub fn checked_from_buffer(buffer: &[u8]) -> (r: Option<Result<Self, Error>>)
        ensures
            r is None <==> !message_parse_ok(buffer@),
            r matches Some(x) ==> crate::error::result_view(x) == message_parse(buffer@),
            forall|v: u128|
                #![trigger id::uuid_text(v)]
                message_id_text(buffer@) == Some(id::uuid_text(v)) ==> id::uuid_parse(
                    id::uuid_text(v),
                ) == Some(v),
    {
        let mut complete = false;
        let mut buflen = buffer.len();
        match len_without_eof_marker(buffer, buflen) {
            Some(len) => {
                buflen = len;
                complete = true;
            },
            None => {},
        }
        assert(buffer@.take(buffer@.len() as int) =~= buffer@);
        let frame = bytes::sub_bytes(buffer, 0, buflen);
        assert(frame@ =~= buffer@.take(buflen as int));
        assert((frame@, complete) == frame_of(buffer@));
        let header = match read_buffer_header(frame.as_slice()) {
            None => {
                return Some(Err(Error::TunnelMessageInvalid));
            },
            Some(h) => h,
        };
        proof {
            lemma_header_split_bounds(frame@);
        }
        let data = chars_of(header.data.as_str());
        let ls = split_lines(data.as_slice());
        assert(text::views(ls@) == header_lines(frame@));
        assert(text::views(ls@).len() == ls@.len());
        if ls.len() == 0 {
            return None;
        }
        assert(text::views(ls@)[0] == ls@[0]@);
        let first = string_from_chars(trim_chars(ls[0].as_slice()).as_slice());
        if !status_line_checked(first.as_str()) {
            return None;
        }
        let status_line = match parse_status_line(first.as_str()) {
            Ok(st) => st,
            Err(e) => {
                return Some(Err(e));
            },
        };
        let headers = read_header_items(&ls, 1);
        let id = match read_req_id(&headers) {
            Some(id) => id,
            None => {
                return None;
            },
        };
        let initial_body = read_body(frame.as_slice(), header.body_start);
        Some(Ok(TunnelMessage { id, status_line, headers, initial_body, complete }))
    }

    /// Parses a buffer for the status line, headers and the body so far; a
    /// final end marker makes the message complete.
    pub fn from_buffer(buffer: &[u8]) -> (r: Result<Self, Error>)
        requires
            message_parse_ok(buffer@),
        ensures
            crate::error::result_view(r) == message_parse(buffer@),
            forall|v: u128|
                #![trigger id::uuid_text(v)]
                message_id_text(buffer@) == Some(id::uuid_text(v)) ==> id::uuid_parse(
                    id::uuid_text(v),
                ) == Some(v),
    {
        match Self::checked_from_buffer(buffer) {
            Some(r) => r,
            None => {
                proof {
                    assert(false);
                }
                Err(Error::TunnelMessageInvalid)
            },
        }
    }

    /// Parses a buffer holding messages one after another, each ending at an
    /// end marker, the last possibly incomplete; or `None` where
    /// [`TunnelMessage::from_large_buffer`] would panic.
    pub fn checked_from_large_buffer(buffer: &[u8]) -> (r: Option<Result<Vec<Self>, Error>>)
        ensures
            r is None <==> !messages_parse_ok_from(buffer@, 0),
            r matches Some(x) ==> match x {
                Ok(ms) => messages_parse_from(buffer@, 0) == Ok::<Seq<TunnelMessageV>, ErrorV>(
                    messages_view(ms@),
                ),
                Err(e) => messages_parse_from(buffer@, 0) == Err::<Seq<TunnelMessageV>, ErrorV>(
                    e@,
                ),
            },
    {
        let mut messages: Vec<Self> = Vec::new();
        let mut start: usize = 0;
        let len = buffer.len();
        let marker = MSG_EOF;
        assert(marker@ =~= eof_marker());
        while start < len
            invariant
                len == buffer@.len(),
                start <= len,
                marker@ == eof_marker(),
                messages_parse_ok_from(buffer@, 0) == messages_parse_ok_from(buffer@, start as int),
                match messages_parse_from(buffer@, start as int) {
                    Ok(rest) => messages_parse_from(buffer@, 0) == Ok::<
                        Seq<TunnelMessageV>,
                        ErrorV,
                    >(messages_view(messages@) + rest),
                    Err(e) => messages_parse_from(buffer@, 0) == Err::<
                        Seq<TunnelMessageV>,
                        ErrorV,
                    >(e),
                },
            decreases len - start,
        {
            proof {
                lemma_chunk_end(buffer@, start as int);
            }
            let end = match bytes::find_pattern(buffer, &marker, start) {
                Some(pos) => pos + 15,
                None => len,
            };
            assert(end == chunk_end(buffer@, start as int));
            let chunk = bytes::sub_bytes(buffer, start, end);
            match Self::checked_from_buffer(chunk.as_slice()) {
                None => {
                    return None;
                },
                Some(Err(e)) => {
                    return Some(Err(e));
                },
                Some(Ok(msg)) => {
                    let ghost before = messages@;
                    messages.push(msg);
                    assert(messages_view(messages@) =~= messages_view(before).push(msg@));
                    proof {
                        match messages_parse_from(buffer@, end as int) {
                            Ok(rest) => {
                                assert(messages_view(before) + (seq![msg@] + rest) =~= messages_view(
                                    messages@,
                                ) + rest);
                            },
                            Err(e) => {},
                        }
                    }
                    start = end;
                },
            }
        }
        assert(messages_view(messages@) + Seq::<TunnelMessageV>::empty() =~= messages_view(
            messages@,
        ));
        Some(Ok(messages))
    }

    /// Parses a buffer holding messages one after another, each ending at an
    /// end marker, the last possibly incomplete; fails with the first error.
    pub fn from_large_buffer(buffer: &[u8]) -> (r: Result<Vec<Self>, Error>)
        requires
            messages_parse_ok_from(buffer@, 0),
        ensures
            match r {
                Ok(ms) => messages_parse_from(buffer@, 0) == Ok::<Seq<TunnelMessageV>, ErrorV>(
                    messages_view(ms@),
                ),
                Err(e) => messages_parse_from(buffer@, 0) == Err::<Seq<TunnelMessageV>, ErrorV>(
                    e@,
                ),
            },
    {
        match Self::checked_from_large_buffer(buffer) {
            Some(r) => r,
            None => {
                proof {
                    assert(false);
                }
                Err(Error::TunnelMessageInvalid)
            },
        }
    }

    pub fn is_request(&self) -> (r: bool)
        ensures
            r == (self@.status_line is Request),
    {
        self.status_line.is_request()
    }

    pub fn is_response(&self) -> (r: bool)
        ensures
            r == (self@.status_line is Response),
    {
        self.status_line.is_response()
    }

    /// The value of the first `x-webhook-op` header.
    pub fn webhook_op(&self) -> (r: Option<&str>)
        ensures
            match r {
                Some(v) => header_value(self@.headers, WEBHOOK_OP@) == Some(v@),
                None => header_value(self@.headers, WEBHOOK_OP@) is None,
            },
    {
        find_header(&self.headers, WEBHOOK_OP)
    }

    /// The value of the first `x-webhook-token` header.
    pub fn webhook_token(&self) -> (r: Option<&str>)
        ensures
            match r {
                Some(v) => header_value(self@.headers, WEBHOOK_TOKEN@) == Some(v@),
                None => header_value(self@.headers, WEBHOOK_TOKEN@) is None,
            },
    {
        find_header(&self.headers, WEBHOOK_TOKEN)
    }

    /// An auth request: `POST /_x_webhook_auth HTTP/1.1` with operation
    /// `auth`.
    pub fn is_auth(&self) -> (r: bool)
        ensures
            r == (self@.status_line == StatusLineV::Request(
                ("POST"@, WEBHOOK_OP_AUTH_PATH@, "HTTP/1.1"@),
            ) && header_value(self@.headers, WEBHOOK_OP@) == Some(WEBHOOK_OP_AUTH@)),
    {
        if !self.is_request() {
            return false;
        }
        let valid_status = match &self.status_line {
            StatusLine::Request(line) => {
                let m = chars_of(line.method.as_str());
                let p = chars_of(line.path.as_str());
                let v = chars_of(line.version.as_str());
                eq_str(m.as_slice(), "POST") && eq_str(p.as_slice(), WEBHOOK_OP_AUTH_PATH) && eq_str(
                    v.as_slice(),
                    "HTTP/1.1",
                )
            },
            _ => false,
        };
        if !valid_status {
            return false;
        }
        match self.webhook_op() {
            Some(op) => {
                let o = chars_of(op);
                eq_str(o.as_slice(), WEBHOOK_OP_AUTH)
            },
            None => false,
        }
    }

    /// An auth response: a response with operation `auth-res`.
    pub fn is_auth_response(&self) -> (r: bool)
        ensures
            r == (self@.status_line is Response && header_value(self@.headers, WEBHOOK_OP@) == Some(
                WEBHOOK_OP_AUTH_RES@,
            )),
    {
        if !self.is_response() {
            return false;
        }
        match self.webhook_op() {
            Some(op) => {
                let o = chars_of(op);
                eq_str(o.as_slice(), WEBHOOK_OP_AUTH_RES)
            },
            None => false,
        }
    }

    /// A forwarded request: a request with operation `forward`.
    pub fn is_forward(&self) -> (r: bool)
        ensures
            r == (self@.status_line is Request && header_value(self@.headers, WEBHOOK_OP@) == Some(
                WEBHOOK_OP_FORWARD@,
            )),
    {
        if !self.is_request() {
            return false;
        }
        match self.webhook_op() {
            Some(op) => {
                let o = chars_of(op);
                eq_str(o.as_slice(), WEBHOOK_OP_FORWARD)
            },
            None => false,
        }
    }

    /// Adds `buffer` to the body up to the first end marker, which completes
    /// the message; returns where the next message starts in `buffer`, if
    /// anything follows the marker.
    pub fn accumulate_body(&mut self, buffer: &[u8]) -> (r: Option<usize>)
        ensures
            final(self).id == old(self).id,
            final(self).status_line == old(self).status_line,
            final(self).headers == old(self).headers,
            match bytes::find_pat_from(buffer@, eof_marker(), 0) {
                Some(p) => final(self).initial_body@ == old(self).initial_body@ + buffer@.take(p)
                    && final(self).complete,
                None => final(self).initial_body@ == old(self).initial_body@ + buffer@
                    && final(self).complete == old(self).complete,
            },
            match r {
                Some(n) => accumulate_next(buffer@) == Some(n as int),
                None => accumulate_next(buffer@) is None,
            },
    {
        let marker = MSG_EOF;
        let n = buffer.len();
        assert(marker@ =~= eof_marker());
        match bytes::find_pattern(buffer, &marker, 0) {
            Some(pos) => {
                let part = bytes::sub_bytes(buffer, 0, pos);
                assert(part@ =~= buffer@.take(pos as int));
                bytes::append_bytes(&mut self.initial_body, part.as_slice());
                self.complete = true;
                let next_pos = pos + 15;
                if next_pos < n {
                    Some(next_pos)
                } else {
                    None
                }
            },
            None => {
                bytes::append_bytes(&mut self.initial_body, buffer);
                None
            },
        }
    }

    /// The message's bytes: status line, header lines, the body after a
    /// blank line when there is one, and the end marker.
    pub fn into_bytes(&self) -> (r: Vec<u8>)
        ensures
            r@ == message_bytes(self@),
    {
        let mut buffer: Vec<u8> = Vec::new();
        let st = self.status_line.into_bytes();
        bytes::append_bytes(&mut buffer, st.as_slice());
        append_headers(&mut buffer, &self.headers);
        if self.initial_body.len() > 0 {
            buffer.push(13);
            buffer.push(10);
            bytes::append_bytes(&mut buffer, self.initial_body.as_slice());
        }
        let marker = MSG_EOF;
        bytes::append_bytes(&mut buffer, &marker);
        assert(marker@ =~= eof_marker());
        assert(buffer@ =~= message_bytes(self@));
        buffer
    }
}


// ---------------------------------------------------------------------------
// Reading back what was written
// ---------------------------------------------------------------------------
proof fn lemma_crlf_ws()
    ensures
        forall|i: int| 0 <= i < crlf_chars().len() ==> text::is_ws(#[trigger] crlf_chars()[i]),
{
}

proof fn lemma_dec_word(n: u16)
    ensures
        text::is_word(number::dec(n as nat)),
        number::parse_u16_spec(number::dec(n as nat)) == Some(n),
{
    number::lemma_dec_digits(n as nat);
    number::lemma_parse_dec(n);
    let d = number::dec(n as nat);
    assert forall|i: int| 0 <= i < d.len() implies !text::is_ws(#[trigger] d[i]) by {
        assert(number::is_digit(d[i]));
    }
}

/// A request line whose parts are words reads back as itself.
pub proof fn lemma_http_line_roundtrip(l: (Seq<char>, Seq<char>, Seq<char>))
    requires
        text::is_word(l.0),
        text::is_word(l.1),
        text::is_word(l.2),
    ensures
        http_line_parse(http_line_text(l)) == Ok::<(Seq<char>, Seq<char>, Seq<char>), ErrorV>(l),
{
    lemma_crlf_ws();
    text::lemma_tokens_three(l.0, l.1, l.2, crlf_chars());
}

/// A response line whose version and reason are words reads back as
/// itself, and its status code is readable.
pub proof fn lemma_response_line_roundtrip(l: (Seq<char>, u16, Option<Seq<char>>))
    requires
        text::is_word(l.0),
        l.2 matches Some(m) ==> text::is_word(m),
    ensures
        response_code_ok(response_line_text(l)),
        response_line_parse(response_line_text(l)) == Ok::<(Seq<char>, u16, Option<Seq<char>>), ErrorV>(l),
{
    lemma_crlf_ws();
    lemma_dec_word(l.1);
    let d = number::dec(l.1 as nat);
    match l.2 {
        Some(m) => {
            text::lemma_tokens_three(l.0, d, m, crlf_chars());
        },
        None => {
            let tail = sp() + crlf_chars();
            assert(forall|i: int| 0 <= i < tail.len() ==> text::is_ws(#[trigger] tail[i]));
            text::lemma_tokens_two(l.0, d, tail);
            assert(response_line_text(l) =~= l.0 + sp() + d + tail);
        },
    }
}

/// A status line is well formed: its parts are words and its first word is
/// one the tunnel reads (a known method, or `HTTP/1.1` / `HTTP/1.0`).
pub open spec fn status_line_wf(s: StatusLineV) -> bool {
    match s {
        StatusLineV::Request(l) => is_method_word(l.0) && text::is_word(l.1) && text::is_word(l.2),
        StatusLineV::Response(l) => is_response_word(l.0) && (l.2 matches Some(m) ==> text::is_word(
            m,
        )),
    }
}

/// A well-formed status line reads back as itself.
pub proof fn lemma_status_line_roundtrip(s: StatusLineV)
    requires
        status_line_wf(s),
    ensures
        status_line_ok(status_line_text(s)),
        status_line_parse(status_line_text(s)) == Ok::<StatusLineV, ErrorV>(s),
{
    reveal_strlit("GET");
    reveal_strlit("POST");
    reveal_strlit("PUT");
    reveal_strlit("PATCH");
    reveal_strlit("DELETE");
    reveal_strlit("HTTP/1.1");
    reveal_strlit("HTTP/1.0");
    match s {
        StatusLineV::Request(l) => {
            assert(text::is_word(l.0));
            lemma_http_line_roundtrip(l);
            lemma_crlf_ws();
            text::lemma_tokens_three(l.0, l.1, l.2, crlf_chars());
            assert(!is_response_word(l.0));
        },
        StatusLineV::Response(l) => {
            assert(text::is_word(l.0));
            lemma_response_line_roundtrip(l);
            lemma_crlf_ws();
            lemma_dec_word(l.1);
            let d = number::dec(l.1 as nat);
            match l.2 {
                Some(m) => {
                    text::lemma_tokens_three(l.0, d, m, crlf_chars());
                },
                None => {
                    let tail = sp() + crlf_chars();
                    assert(forall|i: int| 0 <= i < tail.len() ==> text::is_ws(#[trigger] tail[i]));
                    text::lemma_tokens_two(l.0, d, tail);
                    assert(response_line_text(l) =~= l.0 + sp() + d + tail);
                },
            }
            assert(!is_method_word(l.0));
        },
    }
}


/// An auth request made with a token is one the server takes for an auth
/// request, and the token it carries is the one given.
pub proof fn lemma_auth_request_recognized(id: u128, token: Seq<char>)
    ensures
        ({
            let hs = id_headers(id).push((WEBHOOK_OP@, WEBHOOK_OP_AUTH@)).push(
                (WEBHOOK_TOKEN@, token),
            );
            &&& header_value(hs, WEBHOOK_OP@) == Some(WEBHOOK_OP_AUTH@)
            &&& header_value(hs, WEBHOOK_TOKEN@) == Some(token)
        }),
{
    reveal_strlit("x-webhook-op");
    reveal_strlit("x-webhook-token");
    reveal_strlit("x-webhook-req-id");
    let hs = id_headers(id).push((WEBHOOK_OP@, WEBHOOK_OP_AUTH@)).push((WEBHOOK_TOKEN@, token));
    assert(WEBHOOK_OP@ == "x-webhook-op"@);
    assert(WEBHOOK_TOKEN@ == "x-webhook-token"@);
    assert(WEBHOOK_REQ_ID@ == "x-webhook-req-id"@);
    assert(WEBHOOK_REQ_ID@.len() == 16);
    assert(WEBHOOK_OP@.len() == 12);
    assert(WEBHOOK_TOKEN@.len() == 15);
    assert(hs[0].0 != WEBHOOK_OP@);
    assert(hs[0].0 != WEBHOOK_TOKEN@);
    assert(hs.drop_first()[0].0 == WEBHOOK_OP@);
    assert(hs.drop_first()[0].0 != WEBHOOK_TOKEN@);
    assert(hs.drop_first().drop_first()[0].0 == WEBHOOK_TOKEN@);
    assert(header_value(hs, WEBHOOK_OP@) == header_value(hs.drop_first(), WEBHOOK_OP@));
    assert(header_value(hs.drop_first(), WEBHOOK_OP@) == Some(WEBHOOK_OP_AUTH@));
    assert(header_value(hs, WEBHOOK_TOKEN@) == header_value(hs.drop_first(), WEBHOOK_TOKEN@));
    assert(header_value(hs.drop_first(), WEBHOOK_TOKEN@) == header_value(
        hs.drop_first().drop_first(),
        WEBHOOK_TOKEN@,
    ));
}

/// An auth response, accepting or refusing, is one the client takes for an
/// auth response.
pub proof fn lemma_auth_response_recognized(id: u128)
    ensures
        header_value(id_headers(id).push((WEBHOOK_OP@, WEBHOOK_OP_AUTH_RES@)), WEBHOOK_OP@) == Some(
            WEBHOOK_OP_AUTH_RES@,
        ),
{
    reveal_strlit("x-webhook-op");
    reveal_strlit("x-webhook-req-id");
    let hs = id_headers(id).push((WEBHOOK_OP@, WEBHOOK_OP_AUTH_RES@));
    assert(WEBHOOK_OP@ == "x-webhook-op"@);
    assert(WEBHOOK_REQ_ID@ == "x-webhook-req-id"@);
    assert(WEBHOOK_REQ_ID@.len() == 16);
    assert(WEBHOOK_OP@.len() == 12);
    assert(hs[0].0 != WEBHOOK_OP@);
    assert(hs.drop_first()[0].0 == WEBHOOK_OP@);
    assert(header_value(hs, WEBHOOK_OP@) == header_value(hs.drop_first(), WEBHOOK_OP@));
}


/// A status line of three words whose first is one of the request methods
/// the tunnel carries (DELETE, GET, PATCH, POST, PUT) reads, without a
/// panic, as the request line of those three words.
pub proof fn lemma_request_status_line(w: Seq<char>, p: Seq<char>, v: Seq<char>)
    requires
        w == "DELETE"@ || w == "GET"@ || w == "PATCH"@ || w == "POST"@ || w == "PUT"@,
        text::is_word(p),
        text::is_word(v),
    ensures
        status_line_ok(w + sp() + p + sp() + v),
        status_line_parse(w + sp() + p + sp() + v) == Ok::<StatusLineV, ErrorV>(
            StatusLineV::Request((w, p, v)),
        ),
{
    reveal_strlit("DELETE");
    reveal_strlit("GET");
    reveal_strlit("PATCH");
    reveal_strlit("POST");
    reveal_strlit("PUT");
    reveal_strlit("HTTP/1.1");
    reveal_strlit("HTTP/1.0");
    assert(text::is_word(w));
    let e = Seq::<char>::empty();
    text::lemma_tokens_three(w, p, v, e);
    assert(w + sp() + p + sp() + v + e =~= w + sp() + p + sp() + v);
    assert(w.len() < 8);
    assert(!is_response_word(w));
}

} // verus!
