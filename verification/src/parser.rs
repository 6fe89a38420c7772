//! Line-oriented parsing of tunnel requests and responses: a request or
//! response line, header lines up to the first blank line, then the body.

use vstd::prelude::*;
use crate::bytes;
use crate::error::{Error, ErrorV};
use crate::message;
use crate::number;
use crate::text;
use crate::text::{
    chars_of, count_chars, decode_lossy, find_char, push_str, split_ws, str_bytes,
    string_from_chars, sub_chars, trim_chars,
};

verus! {

broadcast use vstd::string::group_string_axioms;

/// `'\r'`
pub const CARRIAGE_RETURN: u8 = 13;

/// `'\n'`
pub const LINE_FEED: u8 = 10;

/// `"\r\n"` as bytes.
pub open spec fn crlf() -> Seq<u8> {
    seq![13u8, 10u8]
}

/// A line of a buffer and where the next one starts.
pub struct BufferLine {
    pub line: String,
    pub next_start: Option<usize>,
}

/// The line of `b` starting at `start`: its text up to the next `"\r\n"`, and
/// where the following line starts when bytes follow; `None` when no
/// `"\r\n"` follows `start`.
pub open spec fn line_at(b: Seq<u8>, start: int) -> Option<(Seq<char>, Option<int>)> {
    match bytes::find_pat_from(b, crlf(), start) {
        Some(p) => Some(
            (
                text::decoded_utf8(b.subrange(start, p)),
                if p + 2 < b.len() {
                    Some(p + 2)
                } else {
                    None
                },
            ),
        ),
        None => None,
    }
}

/// A line found in a buffer ends within it, and the next one starts later.
pub proof fn lemma_line_at(b: Seq<u8>, start: int)
    ensures
        line_at(b, start) matches Some((l, next)) ==> (next matches Some(n) ==> start < n
            <= b.len()),
{
    bytes::lemma_find_pat_from_bounds(b, crlf(), start);
}

/// Reads the line of `buffer` that starts at `start`.
pub fn read_buffer_line(buffer: &[u8], start: usize) -> (r: Option<BufferLine>)
    ensures
        match r {
            Some(bl) => line_at(buffer@, start as int) == Some(
                (
                    bl.line@,
                    match bl.next_start {
                        Some(n) => Some(n as int),
                        None => None,
                    },
                ),
            ),
            None => line_at(buffer@, start as int) is None,
        },
{
    let sep: [u8; 2] = [CARRIAGE_RETURN, LINE_FEED];
    assert(sep@ =~= crlf());
    let n = buffer.len();
    match bytes::find_pattern(buffer, &sep, start) {
        Some(pos) => {
            let part = bytes::sub_bytes(buffer, start, pos);
            let line = decode_lossy(part.as_slice());
            let next_start = if pos + 2 < n {
                Some(pos + 2)
            } else {
                None
            };
            Some(BufferLine { line, next_start })
        },
        None => None,
    }
}

/// A header line as a name and a value: split at its one `':'`, the value
/// trimmed; `None` unless the line holds exactly one `':'`.
pub open spec fn split_header(l: Seq<char>) -> Option<(Seq<char>, Seq<char>)> {
    if text::count_char(l, ':') == 1 {
        let p = text::find_from(l, ':', 0);
        Some((l.take(p), text::trim(l.skip(p + 1))))
    } else {
        None
    }
}

/// The header lines from `pos` on, up to a blank line or the last line, and
/// where the body starts; `None` when a header line is malformed.
pub open spec fn headers_from(b: Seq<u8>, pos: int) -> Option<(Seq<(Seq<char>, Seq<char>)>, Option<int>)>
    decreases b.len() - pos,
{
    match line_at(b, pos) {
        None => Some((seq![], None)),
        Some((line, next)) => if line.len() == 0 {
            Some((seq![], next))
        } else {
            match split_header(line) {
                None => None,
                Some(item) => match next {
                    None => Some((seq![item], None)),
                    Some(n) => if pos < n <= b.len() {
                        match headers_from(b, n) {
                            Some((hs, body)) => Some((seq![item] + hs, body)),
                            None => None,
                        }
                    } else {
                        None
                    },
                },
            }
        },
    }
}

/// The bytes of `b` from `start` on, or nothing.
pub open spec fn body_from(b: Seq<u8>, start: Option<int>) -> Seq<u8> {
    match start {
        Some(s) => b.skip(s),
        None => seq![],
    }
}

/// The headers and body after a first line whose successor starts at `next`.
pub open spec fn rest_parse(b: Seq<u8>, next: Option<int>) -> Option<(Seq<(Seq<char>, Seq<char>)>, Seq<u8>)> {
    match next {
        None => Some((seq![], seq![])),
        Some(n) => match headers_from(b, n) {
            None => None,
            Some((hs, body)) => Some((hs, body_from(b, body))),
        },
    }
}

/// The contents of a header list.
pub open spec fn pairs_view(v: Seq<(String, String)>) -> Seq<(Seq<char>, Seq<char>)> {
    v.map_values(|p: (String, String)| (p.0@, p.1@))
}

/// Executable `split_header`.
fn read_split_header(l: &[char]) -> (r: Option<(String, String)>)
    ensures
        match r {
            Some(p) => split_header(l@) == Some((p.0@, p.1@)),
            None => split_header(l@) is None,
        },
{
    if count_chars(l, ':') != 1 {
        return None;
    }
    let p = find_char(l, ':');
    proof {
        text::lemma_find_from(l@, ':', 0);
        if p >= l@.len() {
            text::lemma_count_none(l@, ':');
        }
    }
    if p >= l.len() {
        return None;
    }
    assert(l@.take(p as int) =~= l@.subrange(0, p as int));
    assert(l@.skip(p + 1) =~= l@.subrange(p + 1, l@.len() as int));
    let k = string_from_chars(sub_chars(l, 0, p).as_slice());
    let v = trim_chars(sub_chars(l, p + 1, l.len()).as_slice());
    Some((k, string_from_chars(v.as_slice())))
}

/// Reads the header lines from `start` on.
fn read_headers(buffer: &[u8], start: usize) -> (r: Option<(Vec<(String, String)>, Option<usize>)>)
    requires
        start <= buffer@.len(),
    ensures
        match r {
            Some((hs, body)) => headers_from(buffer@, start as int) == Some(
                (
                    pairs_view(hs@),
                    match body {
                        Some(s) => Some(s as int),
                        None => None,
                    },
                ),
            ) && (body matches Some(s) ==> s <= buffer@.len()),
            None => headers_from(buffer@, start as int) is None,
        },
{
    let mut headers: Vec<(String, String)> = Vec::new();
    let mut next_start: usize = start;
    let n = buffer.len();
    loop
        invariant
            n == buffer@.len(),
            next_start <= n,
            match headers_from(buffer@, next_start as int) {
                Some((hs, body)) => headers_from(buffer@, start as int) == Some(
                    (pairs_view(headers@) + hs, body),
                ),
                None => headers_from(buffer@, start as int) is None,
            },
        decreases n - next_start,
    {
        proof {
            lemma_line_at(buffer@, next_start as int);
        }
        let ghost before = headers@;
        let bl = match read_buffer_line(buffer, next_start) {
            None => {
                assert(pairs_view(headers@) + Seq::<(Seq<char>, Seq<char>)>::empty() =~= pairs_view(
                    headers@,
                ));
                return Some((headers, None));
            },
            Some(bl) => bl,
        };
        let line = chars_of(bl.line.as_str());
        if line.len() == 0 {
            assert(pairs_view(headers@) + Seq::<(Seq<char>, Seq<char>)>::empty() =~= pairs_view(
                headers@,
            ));
            return Some((headers, bl.next_start));
        }
        let item = match read_split_header(line.as_slice()) {
            None => {
                return None;
            },
            Some(item) => item,
        };
        let ghost iv = (item.0@, item.1@);
        headers.push(item);
        assert(pairs_view(headers@) =~= pairs_view(before).push(iv));
        match bl.next_start {
            Some(next) => {
                proof {
                    match headers_from(buffer@, next as int) {
                        Some((hs, body)) => {
                            assert(pairs_view(before) + (seq![iv] + hs) =~= pairs_view(headers@)
                                + hs);
                        },
                        None => {},
                    }
                }
                next_start = next;
            },
            None => {
                assert(pairs_view(before) + seq![iv] =~= pairs_view(headers@));
                return Some((headers, None));
            },
        }
    }
}

/// Copies `b[start..]`, or nothing.
fn read_body(b: &[u8], start: Option<usize>) -> (r: Vec<u8>)
    requires
        start matches Some(s) ==> s <= b@.len(),
    ensures
        r@ == body_from(
            b@,
            match start {
                Some(s) => Some(s as int),
                None => None,
            },
        ),
{
    match start {
        Some(s) => {
            let r = bytes::sub_bytes(b, s, b.len());
            assert(r@ =~= b@.skip(s as int));
            r
        },
        None => Vec::new(),
    }
}

/// Reads the headers and body that follow a first line.
fn read_rest(buffer: &[u8], next: Option<usize>) -> (r: Option<(Vec<(String, String)>, Vec<u8>)>)
    requires
        next matches Some(n) ==> n <= buffer@.len(),
    ensures
        match r {
            Some((hs, body)) => rest_parse(
                buffer@,
                match next {
                    Some(n) => Some(n as int),
                    None => None,
                },
            ) == Some((pairs_view(hs@), body@)),
            None => rest_parse(
                buffer@,
                match next {
                    Some(n) => Some(n as int),
                    None => None,
                },
            ) is None,
        },
{
    match next {
        None => {
            let hs: Vec<(String, String)> = Vec::new();
            assert(pairs_view(hs@) =~= Seq::<(Seq<char>, Seq<char>)>::empty());
            Some((hs, Vec::new()))
        },
        Some(n) => match read_headers(buffer, n) {
            None => None,
            Some((hs, body)) => Some((hs, read_body(buffer, body))),
        },
    }
}

// ---------------------------------------------------------------------------
// Request and response lines
// ---------------------------------------------------------------------------
/// A request line: method, path and version.
pub struct RequestLine {
    pub method: String,
    pub path: String,
    pub version: String,
}

impl View for RequestLine {
    type V = (Seq<char>, Seq<char>, Seq<char>);

    open spec fn view(&self) -> (Seq<char>, Seq<char>, Seq<char>) {
        (self.method@, self.path@, self.version@)
    }
}

fn token_string(t: &Vec<Vec<char>>, i: usize) -> (r: String)
    requires
        i < t@.len(),
    ensures
        r@ == text::views(t@)[i as int],
{
    string_from_chars(t[i].as_slice())
}

impl RequestLine {
    /// Reads the first three words of a line as method, path and version.
    pub fn parse(line: &str) -> (r: Result<Self, Error>)
        ensures
            crate::error::result_view(r) == message::http_line_parse(line@),
    {
        let cs = chars_of(line);
        let t = split_ws(cs.as_slice());
        assert(text::views(t@).len() == t@.len());
        if t.len() == 0 {
            return Err(Error::RequestLineInvalid(String::from_str("Method missing")));
        }
        if t.len() == 1 {
            return Err(Error::RequestLineInvalid(String::from_str("Path missing")));
        }
        if t.len() == 2 {
            return Err(Error::RequestLineInvalid(String::from_str("Version missing")));
        }
        Ok(
            RequestLine {
                method: token_string(&t, 0),
                path: token_string(&t, 1),
                version: token_string(&t, 2),
            },
        )
    }

    /// `"<method> <path> <version>\r\n"`.
    pub fn to_string(&self) -> (r: String)
        ensures
            r@ == message::http_line_text(self@),
    {
        let mut v: Vec<char> = Vec::new();
        push_str(&mut v, self.method.as_str());
        v.push(' ');
        push_str(&mut v, self.path.as_str());
        v.push(' ');
        push_str(&mut v, self.version.as_str());
        v.push('\r');
        v.push('\n');
        string_from_chars(v.as_slice())
    }

    /// The line's UTF-8 bytes.
    pub fn into_bytes(&self) -> (r: Vec<u8>)
        ensures
            r@ == vstd::utf8::encode_utf8(message::http_line_text(self@)),
    {
        let s = self.to_string();
        str_bytes(s.as_str())
    }
}

/// A response line: version, status code and the first word of the reason
/// phrase.
pub struct ResponseLine {
    pub version: String,
    pub status_code: u16,
    pub message: Option<String>,
}

impl View for ResponseLine {
    type V = (Seq<char>, u16, Option<Seq<char>>);

    open spec fn view(&self) -> (Seq<char>, u16, Option<Seq<char>>) {
        (self.version@, self.status_code, message::opt_view(self.message))
    }
}

impl ResponseLine {
    /// Reads version, status code and the first word of the reason phrase.
    pub fn parse(line: &str) -> (r: Result<Self, Error>)
        requires
            message::response_code_ok(line@),
        ensures
            crate::error::result_view(r) == message::response_line_parse(line@),
    {
        let cs = chars_of(line);
        let t = split_ws(cs.as_slice());
        assert(text::views(t@).len() == t@.len());
        if t.len() == 0 {
            return Err(Error::ResponseLineInvalid(String::from_str("Version missing")));
        }
        if t.len() == 1 {
            return Err(Error::ResponseLineInvalid(String::from_str("Status code missing")));
        }
        assert(text::views(t@)[1] == t@[1]@);
        let code = match number::parse_u16(t[1].as_slice()) {
            Some(c) => c,
            None => {
                return Err(Error::ResponseLineInvalid(String::from_str("Status code missing")));
            },
        };
        let message = if t.len() >= 3 {
            Some(token_string(&t, 2))
        } else {
            None
        };
        Ok(ResponseLine { version: token_string(&t, 0), status_code: code, message })
    }

    /// `"<version> <code> <message>\r\n"`.
    pub fn to_string(&self) -> (r: String)
        ensures
            r@ == message::response_line_text(self@),
    {
        let mut v: Vec<char> = Vec::new();
        push_str(&mut v, self.version.as_str());
        v.push(' ');
        number::push_dec(&mut v, self.status_code);
        v.push(' ');
        match &self.message {
            Some(m) => push_str(&mut v, m.as_str()),
            None => {},
        }
        v.push('\r');
        v.push('\n');
        string_from_chars(v.as_slice())
    }

    /// The line's UTF-8 bytes.
    pub fn into_bytes(&self) -> (r: Vec<u8>)
        ensures
            r@ == vstd::utf8::encode_utf8(message::response_line_text(self@)),
    {
        let s = self.to_string();
        str_bytes(s.as_str())
    }
}

// ---------------------------------------------------------------------------
// Requests and responses
// ---------------------------------------------------------------------------
/// A request read from a buffer.
pub struct TunnelRequest {
    pub request_line: RequestLine,
    pub headers: Vec<(String, String)>,
    pub initial_body: Vec<u8>,
}

/// The abstract value of a [`TunnelRequest`] or [`TunnelResponse`]: first
/// line, headers, body.
pub struct TunnelPartsV<L> {
    pub line: L,
    pub headers: Seq<(Seq<char>, Seq<char>)>,
    pub initial_body: Seq<u8>,
}

impl View for TunnelRequest {
    type V = TunnelPartsV<(Seq<char>, Seq<char>, Seq<char>)>;

    open spec fn view(&self) -> Self::V {
        TunnelPartsV {
            line: self.request_line@,
            headers: pairs_view(self.headers@),
            initial_body: self.initial_body@,
        }
    }
}

/// What parsing a buffer as a request gives: the first line is the request
/// line, the following lines headers (each with exactly one `':'`) up to a
/// blank line, and the rest the body.
pub open spec fn request_parse(b: Seq<u8>) -> Result<TunnelPartsV<(Seq<char>, Seq<char>, Seq<char>)>, ErrorV> {
    match line_at(b, 0) {
        None => Err(ErrorV::RequestLineInvalid("Request line missing"@)),
        Some((line, next)) => match message::http_line_parse(line) {
            Err(e) => Err(e),
            Ok(l) => match rest_parse(b, next) {
                None => Err(ErrorV::RequestHeaderInvalid),
                Some((hs, body)) => Ok(TunnelPartsV { line: l, headers: hs, initial_body: body }),
            },
        },
    }
}

impl TunnelRequest {
    /// Reads the request line, the headers up to a blank line, and the body.
    pub fn from_buffer(buffer: &[u8]) -> (r: Result<Self, Error>)
        ensures
            crate::error::result_view(r) == request_parse(buffer@),
    {
        let first = match read_buffer_line(buffer, 0) {
            None => {
                return Err(Error::RequestLineInvalid(String::from_str("Request line missing")));
            },
            Some(bl) => bl,
        };
        proof {
            lemma_line_at(buffer@, 0);
        }
        let request_line = match RequestLine::parse(first.line.as_str()) {
            Ok(l) => l,
            Err(e) => {
                return Err(e);
            },
        };
        match read_rest(buffer, first.next_start) {
            None => Err(Error::RequestHeaderInvalid),
            Some((headers, initial_body)) => Ok(TunnelRequest { request_line, headers, initial_body }),
        }
    }
}

/// A response read from a buffer.
pub struct TunnelResponse {
    pub response_line: ResponseLine,
    pub headers: Vec<(String, String)>,
    pub initial_body: Vec<u8>,
}

impl View for TunnelResponse {
    type V = TunnelPartsV<(Seq<char>, u16, Option<Seq<char>>)>;

    open spec fn view(&self) -> Self::V {
        TunnelPartsV {
            line: self.response_line@,
            headers: pairs_view(self.headers@),
            initial_body: self.initial_body@,
        }
    }
}

/// What parsing a buffer as a response gives, as for a request.
pub open spec fn response_parse(b: Seq<u8>) -> Result<TunnelPartsV<(Seq<char>, u16, Option<Seq<char>>)>, ErrorV> {
    match line_at(b, 0) {
        None => Err(ErrorV::ResponseLineInvalid("Response line missing"@)),
        Some((line, next)) => match message::response_line_parse(line) {
            Err(e) => Err(e),
            Ok(l) => match rest_parse(b, next) {
                None => Err(ErrorV::ResponseHeaderInvalid),
                Some((hs, body)) => Ok(TunnelPartsV { line: l, headers: hs, initial_body: body }),
            },
        },
    }
}

/// A buffer that [`TunnelResponse::from_buffer`] reads without a panic: its
/// response line, if any, has a readable status code.
pub open spec fn response_parse_ok(b: Seq<u8>) -> bool {
    line_at(b, 0) matches Some((line, next)) ==> message::response_code_ok(line)
}

fn response_code_checked(line: &str) -> (r: bool)
    ensures
        r == message::response_code_ok(line@),
{
    let cs = chars_of(line);
    let t = split_ws(cs.as_slice());
    assert(text::views(t@).len() == t@.len());
    if t.len() < 2 {
        return true;
    }
    assert(text::views(t@)[1] == t@[1]@);
    number::parse_u16(t[1].as_slice()).is_some()
}

impl TunnelResponse {
    /// Reads a response, or `None` where [`TunnelResponse::from_buffer`]
    /// would panic.
    pub fn checked_from_buffer(buffer: &[u8]) -> (r: Option<Result<Self, Error>>)
        ensures
            r is None <==> !response_parse_ok(buffer@),
            r matches Some(x) ==> crate::error::result_view(x) == response_parse(buffer@),
    {
        let first = match read_buffer_line(buffer, 0) {
            None => {
                return Some(Err(Error::ResponseLineInvalid(String::from_str("Response line missing"))));
            },
            Some(bl) => bl,
        };
        proof {
            lemma_line_at(buffer@, 0);
        }
        if !response_code_checked(first.line.as_str()) {
            return None;
        }
        let response_line = match ResponseLine::parse(first.line.as_str()) {
            Ok(l) => l,
            Err(e) => {
                return Some(Err(e));
            },
        };
        match read_rest(buffer, first.next_start) {
            None => Some(Err(Error::ResponseHeaderInvalid)),
            Some((headers, initial_body)) => Some(
                Ok(TunnelResponse { response_line, headers, initial_body }),
            ),
        }
    }

    /// Reads the response line, the headers up to a blank line, and the body.
    pub fn from_buffer(buffer: &[u8]) -> (r: Result<Self, Error>)
        requires
            response_parse_ok(buffer@),
        ensures
            crate::error::result_view(r) == response_parse(buffer@),
    {
        match Self::checked_from_buffer(buffer) {
            Some(r) => r,
            None => {
                proof {
                    assert(false);
                }
                Err(Error::ResponseHeaderInvalid)
            },
        }
    }
}


proof fn lemma_count_concat(a: Seq<char>, b: Seq<char>, c: char)
    ensures
        text::count_char(a + b, c) == text::count_char(a, c) + text::count_char(b, c),
    decreases b.len(),
{
    if b.len() == 0 {
        assert(a + b =~= a);
    } else {
        assert((a + b).drop_last() =~= a + b.drop_last());
        lemma_count_concat(a, b.drop_last(), c);
    }
}

/// A header line `<name>: <value>` whose name and value hold no `':'`, and
/// whose value has no whitespace at either end, reads as that name and that
/// whole value, spaces inside it included.
pub proof fn lemma_split_header_line(name: Seq<char>, v: Seq<char>)
    requires
        forall|i: int| 0 <= i < name.len() ==> #[trigger] name[i] != ':',
        forall|i: int| 0 <= i < v.len() ==> #[trigger] v[i] != ':',
        v.len() > 0 ==> !text::is_ws(v[0]) && !text::is_ws(v.last()),
    ensures
        split_header(name + seq![':', ' '] + v) == Some((name, v)),
{
    let l = name + seq![':', ' '] + v;
    text::lemma_count_none(name, ':');
    text::lemma_count_none(v, ':');
    lemma_count_concat(name, seq![':', ' '], ':');
    lemma_count_concat(name + seq![':', ' '], v, ':');
    assert(seq![':', ' '].drop_last() =~= seq![':']);
    assert(seq![':'].drop_last() =~= Seq::<char>::empty());
    assert(seq![':', ' '].last() == ' ');
    assert(seq![':'].last() == ':');
    assert(text::count_char(Seq::<char>::empty(), ':') == 0);
    assert(text::count_char(seq![':'], ':') == 1);
    assert(text::count_char(seq![':', ' '], ':') == 1);
    assert forall|j: int| 0 <= j < name.len() implies l[j] != ':' by {
        assert(l[j] == name[j]);
    }
    text::lemma_find_from_at(l, ':', 0, name.len() as int);
    assert(l.take(name.len() as int) =~= name);
    let rest = l.skip(name.len() as int + 1);
    assert(rest =~= seq![' '] + v);
    assert(rest.drop_first() =~= v);
    if v.len() > 0 {
        assert(text::trim_start(rest) == text::trim_start(v));
        assert(text::trim_start(v) == v);
        assert(text::trim_end(v) == v);
        assert(text::trim(rest) == v);
    } else {
        assert(v =~= Seq::<char>::empty());
        assert(text::is_ws(' '));
        assert(rest.drop_first() =~= Seq::<char>::empty());
        assert(text::trim_start(rest.drop_first()) =~= Seq::<char>::empty());
        assert(text::trim_start(rest) =~= Seq::<char>::empty());
        assert(text::trim(rest) =~= v);
    }
}

} // verus!
