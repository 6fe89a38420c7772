//! Reading back what was written: a message turned into bytes and parsed
//! again gives the message back.

use vstd::prelude::*;
use vstd::utf8::{encode_utf8, encode_scalar};
use crate::bytes;
use crate::error::ErrorV;
use crate::message;
use crate::message::{StatusLineV, TunnelMessageV, TunnelMessage2V};
use crate::text;

verus! {

broadcast use vstd::utf8::group_utf8_lib;

/// No carriage return or line feed among the characters.
pub open spec fn no_cr_lf(x: Seq<char>) -> bool {
    forall|i: int| 0 <= i < x.len() ==> #[trigger] x[i] != '\r' && x[i] != '\n'
}

/// No carriage-return or line-feed byte among the bytes.
pub open spec fn no_cr_lf_bytes(b: Seq<u8>) -> bool {
    forall|i: int| 0 <= i < b.len() ==> #[trigger] b[i] != 13u8 && b[i] != 10u8
}

/// The UTF-8 encoding of a concatenation is the concatenation of the
/// encodings.
pub proof fn lemma_encode_concat(a: Seq<char>, b: Seq<char>)
    ensures
        encode_utf8(a + b) == encode_utf8(a) + encode_utf8(b),
    decreases a.len(),
{
    if a.len() == 0 {
        assert(a + b =~= b);
        assert(encode_utf8(a) + encode_utf8(b) =~= encode_utf8(b));
    } else {
        assert((a + b)[0] == a[0]);
        assert((a + b).drop_first() =~= a.drop_first() + b);
        lemma_encode_concat(a.drop_first(), b);
        assert(encode_scalar(a[0] as u32) + (encode_utf8(a.drop_first()) + encode_utf8(b))
            =~= encode_utf8(a) + encode_utf8(b));
    }
}

proof fn lemma_scalar_no_cr_lf(c: char)
    requires
        c != '\r',
        c != '\n',
    ensures
        no_cr_lf_bytes(encode_scalar(c as u32)),
        encode_scalar(c as u32).len() >= 1,
{
    let v = c as u32;
    vstd::utf8::char_is_scalar(c);
    if vstd::utf8::has_width_1_encoding(v) {
        assert(v != 13 && v != 10);
        assert((v & 0x7F) as u8 != 13u8 && (v & 0x7F) as u8 != 10u8) by (bit_vector)
            requires
                v <= 0x7F,
                v != 13,
                v != 10,
        ;
    } else if vstd::utf8::has_width_2_encoding(v) {
        assert((0xC0 | ((v >> 6) & 0x1F) as u8) >= 0x80u8) by (bit_vector);
        assert((0x80 | (v & 0x3F) as u8) >= 0x80u8) by (bit_vector);
    } else if vstd::utf8::has_width_3_encoding(v) {
        assert((0xE0 | ((v >> 12) & 0x0F) as u8) >= 0x80u8) by (bit_vector);
        assert((0x80 | ((v >> 6) & 0x3F) as u8) >= 0x80u8) by (bit_vector);
        assert((0x80 | (v & 0x3F) as u8) >= 0x80u8) by (bit_vector);
    } else {
        assert((0xF0 | ((v >> 18) & 0x7) as u8) >= 0x80u8) by (bit_vector);
        assert((0x80 | ((v >> 12) & 0x3F) as u8) >= 0x80u8) by (bit_vector);
        assert((0x80 | ((v >> 6) & 0x3F) as u8) >= 0x80u8) by (bit_vector);
        assert((0x80 | (v & 0x3F) as u8) >= 0x80u8) by (bit_vector);
    }
}

/// Characters other than carriage return and line feed encode to bytes
/// other than 13 and 10, at least one byte each.
pub proof fn lemma_encode_no_cr_lf(x: Seq<char>)
    requires
        no_cr_lf(x),
    ensures
        no_cr_lf_bytes(encode_utf8(x)),
        encode_utf8(x).len() >= x.len(),
    decreases x.len(),
{
    if x.len() > 0 {
        assert(x[0] != '\r' && x[0] != '\n');
        lemma_scalar_no_cr_lf(x[0]);
        assert(no_cr_lf(x.drop_first())) by {
            assert forall|i: int| 0 <= i < x.drop_first().len() implies #[trigger] x.drop_first()[i]
                != '\r' && x.drop_first()[i] != '\n' by {
                assert(x.drop_first()[i] == x[i + 1]);
            }
        }
        lemma_encode_no_cr_lf(x.drop_first());
        let a = encode_scalar(x[0] as u32);
        let b = encode_utf8(x.drop_first());
        assert(encode_utf8(x) == a + b);
        assert forall|i: int| 0 <= i < (a + b).len() implies #[trigger] (a + b)[i] != 13u8 && (a
            + b)[i] != 10u8 by {
            if i < a.len() {
                assert((a + b)[i] == a[i]);
            } else {
                assert((a + b)[i] == b[i - a.len()]);
            }
        }
    }
}

/// The UTF-8 bytes of ASCII characters are their codes.
pub proof fn lemma_encode_ascii(x: Seq<char>)
    requires
        vstd::utf8::is_ascii_chars(x),
    ensures
        encode_utf8(x) == x.map_values(|c: char| c as u8),
{
    vstd::utf8::is_ascii_chars_encode_utf8(x);
    assert(encode_utf8(x) =~= x.map_values(|c: char| c as u8));
}

/// `"\r\n\r\n"` occurs nowhere in `b`.
pub open spec fn no_crlf2(b: Seq<u8>) -> bool {
    forall|i: int| !bytes::occurs_at(b, message::crlf2(), i)
}

/// Appending a non-empty line without line breaks and a `"\r\n"` to bytes
/// that end a line keeps `"\r\n\r\n"` out.
pub proof fn lemma_no_crlf2_append(b1: Seq<u8>, l: Seq<u8>)
    requires
        b1.len() == 0 || (no_crlf2(b1) && b1.last() == 10u8),
        l.len() > 0,
        no_cr_lf_bytes(l),
    ensures
        no_crlf2(b1 + l + seq![13u8, 10u8]),
        (b1 + l + seq![13u8, 10u8]).last() == 10u8,
{
    let b2 = b1 + l + seq![13u8, 10u8];
    let n1 = b1.len() as int;
    let nl = l.len() as int;
    assert forall|i: int| !bytes::occurs_at(b2, message::crlf2(), i) by {
        if bytes::occurs_at(b2, message::crlf2(), i) {
            assert(b2.subrange(i, i + 4)[0] == 13u8);
            assert(b2.subrange(i, i + 4)[1] == 10u8);
            assert(b2.subrange(i, i + 4)[2] == 13u8);
            assert(b2.subrange(i, i + 4)[3] == 10u8);
            assert(b2[i] == 13u8);
            assert(b2[i + 1] == 10u8);
            assert(b2[i + 2] == 13u8);
            assert(b2[i + 3] == 10u8);
            if i + 4 <= n1 {
                assert(b1.subrange(i, i + 4) =~= b2.subrange(i, i + 4));
                assert(bytes::occurs_at(b1, message::crlf2(), i));
            } else if i == n1 - 3 {
                assert(b2[i + 3] == l[0]);
            } else if i == n1 - 2 {
                assert(b2[i + 2] == l[0]);
            } else if i == n1 - 1 {
                assert(b2[i] == b1.last());
            } else {
                assert(n1 <= i < n1 + nl);
                assert(b2[i] == l[i - n1]);
            }
        }
    }
}

/// A search that finds the pattern at `j` and nowhere between `i` and `j`
/// returns `j`.
pub proof fn lemma_find_pat_at(b: Seq<u8>, pat: Seq<u8>, i: int, j: int)
    requires
        0 <= i <= j,
        bytes::occurs_at(b, pat, j),
        forall|k: int| i <= k < j ==> !bytes::occurs_at(b, pat, k),
    ensures
        bytes::find_pat_from(b, pat, i) == Some(j),
    decreases j - i,
{
    if i < j {
        lemma_find_pat_at(b, pat, i + 1, j);
    }
}

/// A search in bytes where the pattern occurs nowhere finds nothing.
pub proof fn lemma_find_pat_none(b: Seq<u8>, pat: Seq<u8>, i: int)
    requires
        0 <= i,
        forall|k: int| !bytes::occurs_at(b, pat, k),
    ensures
        bytes::find_pat_from(b, pat, i) is None,
    decreases b.len() + 1 - i,
{
    if !(i + pat.len() > b.len()) {
        lemma_find_pat_none(b, pat, i + 1);
    }
}


/// Lines joined, each followed by `"\r\n"`.
pub open spec fn join_lines(ls: Seq<Seq<char>>) -> Seq<char>
    decreases ls.len(),
{
    if ls.len() == 0 {
        seq![]
    } else {
        join_lines(ls.drop_last()) + ls.last() + message::crlf_chars()
    }
}

/// Every line is non-empty and holds no line break.
pub open spec fn lines_ok(ls: Seq<Seq<char>>) -> bool {
    forall|i: int| 0 <= i < ls.len() ==> (#[trigger] ls[i]).len() > 0 && no_cr_lf(ls[i])
}

proof fn lemma_line_scan_chars(s: Seq<char>, w: Seq<char>)
    requires
        forall|i: int| 0 <= i < w.len() ==> #[trigger] w[i] != '\n',
    ensures
        text::line_scan(s + w) == (text::line_scan(s).0, text::line_scan(s).1 + w),
    decreases w.len(),
{
    if w.len() == 0 {
        assert(s + w =~= s);
        assert(text::line_scan(s).1 + w =~= text::line_scan(s).1);
    } else {
        let w0 = w.drop_last();
        assert((s + w).drop_last() =~= s + w0);
        assert((s + w).last() == w.last());
        assert(w[w.len() - 1] != '\n');
        lemma_line_scan_chars(s, w0);
        assert((text::line_scan(s).1 + w0).push(w.last()) =~= text::line_scan(s).1 + w);
    }
}

proof fn lemma_line_scan_join(ls: Seq<Seq<char>>)
    requires
        lines_ok(ls),
    ensures
        text::line_scan(join_lines(ls)) == (ls, Seq::<char>::empty()),
    decreases ls.len(),
{
    if ls.len() == 0 {
        assert(text::line_scan(Seq::<char>::empty()) == (Seq::<Seq<char>>::empty(), Seq::<
            char,
        >::empty()));
        assert(ls =~= Seq::<Seq<char>>::empty());
    } else {
        let d = ls.drop_last();
        let l = ls.last();
        assert(lines_ok(d)) by {
            assert forall|i: int| 0 <= i < d.len() implies (#[trigger] d[i]).len() > 0 && no_cr_lf(
                d[i],
            ) by {
                assert(d[i] == ls[i]);
            }
        }
        lemma_line_scan_join(d);
        let j = join_lines(d);
        assert(ls[ls.len() - 1] == l);
        assert(forall|i: int| 0 <= i < l.len() ==> #[trigger] l[i] != '\n');
        lemma_line_scan_chars(j, l);
        assert(Seq::<char>::empty() + l =~= l);
        let j1 = j + l;
        assert((j1.push('\r')).drop_last() =~= j1);
        assert(text::line_scan(j1.push('\r')) == (d, l.push('\r')));
        let j2 = j1.push('\r').push('\n');
        assert(j2.drop_last() =~= j1.push('\r'));
        assert(text::strip_cr(l.push('\r')) =~= l);
        assert(join_lines(ls) =~= j2);
        assert(d.push(l) =~= ls);
    }
}

/// The lines of lines joined are those lines.
pub proof fn lemma_lines_join(ls: Seq<Seq<char>>)
    requires
        lines_ok(ls),
    ensures
        text::lines(join_lines(ls)) == ls,
{
    lemma_line_scan_join(ls);
}

/// The lines of lines joined, without the last `"\r\n"`, are those lines.
pub proof fn lemma_lines_join_open(ls: Seq<Seq<char>>)
    requires
        lines_ok(ls),
        ls.len() > 0,
    ensures
        text::lines(join_lines(ls.drop_last()) + ls.last()) == ls,
{
    let d = ls.drop_last();
    let l = ls.last();
    assert(lines_ok(d)) by {
        assert forall|i: int| 0 <= i < d.len() implies (#[trigger] d[i]).len() > 0 && no_cr_lf(
            d[i],
        ) by {
            assert(d[i] == ls[i]);
        }
    }
    lemma_line_scan_join(d);
    assert(ls[ls.len() - 1] == l);
    assert(forall|i: int| 0 <= i < l.len() ==> #[trigger] l[i] != '\n');
    lemma_line_scan_chars(join_lines(d), l);
    assert(Seq::<char>::empty() + l =~= l);
    assert(d.push(l) =~= ls);
}

proof fn lemma_encode_crlf()
    ensures
        encode_utf8(message::crlf_chars()) == seq![13u8, 10u8],
{
    lemma_encode_ascii(message::crlf_chars());
    assert(message::crlf_chars().map_values(|c: char| c as u8) =~= seq![13u8, 10u8]);
}

/// The bytes of joined lines hold no `"\r\n\r\n"`, and end with a line feed.
pub proof fn lemma_join_bytes(ls: Seq<Seq<char>>)
    requires
        lines_ok(ls),
    ensures
        no_crlf2(encode_utf8(join_lines(ls))),
        ls.len() > 0 ==> encode_utf8(join_lines(ls)).last() == 10u8,
    decreases ls.len(),
{
    if ls.len() == 0 {
        assert(encode_utf8(Seq::<char>::empty()) =~= Seq::<u8>::empty());
        assert forall|i: int| !bytes::occurs_at(Seq::<u8>::empty(), message::crlf2(), i) by {}
    } else {
        let d = ls.drop_last();
        let l = ls.last();
        assert(lines_ok(d)) by {
            assert forall|i: int| 0 <= i < d.len() implies (#[trigger] d[i]).len() > 0 && no_cr_lf(
                d[i],
            ) by {
                assert(d[i] == ls[i]);
            }
        }
        lemma_join_bytes(d);
        assert(ls[ls.len() - 1] == l);
        lemma_encode_no_cr_lf(l);
        lemma_encode_concat(join_lines(d), l);
        lemma_encode_concat(join_lines(d) + l, message::crlf_chars());
        lemma_encode_crlf();
        lemma_no_crlf2_append(encode_utf8(join_lines(d)), encode_utf8(l));
    }
}


/// A header name the tunnel reads back unchanged: non-empty, without
/// whitespace or `':'`, and left unchanged by lower-casing.
pub open spec fn header_name_ok(k: Seq<char>) -> bool {
    &&& k.len() > 0
    &&& text::lower_text(k) == k
    &&& forall|i: int| 0 <= i < k.len() ==> !text::is_ws(#[trigger] k[i]) && k[i] != ':'
}

/// An ASCII name without upper-case letters is left unchanged by
/// lower-casing.
pub proof fn lemma_ascii_name_lower(k: Seq<char>)
    requires
        forall|i: int|
            0 <= i < k.len() ==> '\0' <= #[trigger] k[i] <= '\u{7f}' && !('A' <= k[i] && k[i]
                <= 'Z'),
    ensures
        text::lower_text(k) == k,
{
    assert(vstd::utf8::is_ascii_chars(k));
    assert(k.map_values(|c: char| text::ascii_lower(c)) =~= k);
}

/// A header value the tunnel reads back unchanged: no line breaks, no
/// whitespace at either end.
pub open spec fn header_value_ok(v: Seq<char>) -> bool {
    no_cr_lf(v) && (v.len() > 0 ==> !text::is_ws(v[0]) && !text::is_ws(v.last()))
}

/// A header the tunnel reads back unchanged (its line also has the three
/// bytes a header line needs).
pub open spec fn header_wf(h: (Seq<char>, Seq<char>)) -> bool {
    header_name_ok(h.0) && header_value_ok(h.1) && h.0.len() + h.1.len() >= 2
}

/// The text of a header line, `"<name>: <value>"`.
pub open spec fn hline(h: (Seq<char>, Seq<char>)) -> Seq<char> {
    h.0 + seq![':', ' '] + h.1
}

/// The text lines of a header list.
pub open spec fn hlines(hs: Seq<(Seq<char>, Seq<char>)>) -> Seq<Seq<char>> {
    hs.map_values(|h: (Seq<char>, Seq<char>)| hline(h))
}

/// Every header of the list is read back unchanged.
pub open spec fn headers_wf(hs: Seq<(Seq<char>, Seq<char>)>) -> bool {
    forall|i: int| 0 <= i < hs.len() ==> header_wf(#[trigger] hs[i])
}

/// A header line reads back as its header.
pub proof fn lemma_header_item(h: (Seq<char>, Seq<char>))
    requires
        header_wf(h),
    ensures
        message::header_item(hline(h)) == Some(h),
        hline(h).len() > 0,
        no_cr_lf(hline(h)),
{
    let k = h.0;
    let v = h.1;
    let l = hline(h);
    assert(!text::is_ws(k[0]));
    let t = if v.len() > 0 {
        l
    } else {
        k.push(':')
    };
    if v.len() > 0 {
        assert(l[0] == k[0]);
        assert(l.last() == v.last());
        text::lemma_trim_id(l);
    } else {
        assert(l =~= k.push(':') + seq![' ']);
        text::lemma_trim_end_ws(k.push(':'), seq![' ']);
        assert(l[0] == k[0]);
        assert(text::trim_start(l) == l);
        assert(text::trim_end(k.push(':')) == k.push(':'));
    }
    assert(text::trim(l) == t);
    assert(t[k.len() as int] == ':');
    assert forall|j: int| 0 <= j < k.len() implies t[j] != ':' by {
        assert(t[j] == k[j]);
    }
    text::lemma_find_from_at(t, ':', 0, k.len() as int);
    assert(no_cr_lf(l)) by {
        assert forall|i: int| 0 <= i < l.len() implies #[trigger] l[i] != '\r' && l[i] != '\n' by {
            if i < k.len() {
                assert(l[i] == k[i]);
                assert(!text::is_ws(k[i]));
            } else if i >= k.len() + 2 {
                assert(l[i] == v[i - k.len() - 2]);
            }
        }
    }
    assert(no_cr_lf(t)) by {
        assert forall|i: int| 0 <= i < t.len() implies #[trigger] t[i] != '\r' && t[i] != '\n' by {
            assert(t[i] == l[i]);
        }
    }
    lemma_encode_no_cr_lf(t);
    assert(t.take(k.len() as int) =~= k);
    let rest = t.skip(k.len() as int + 1);
    if v.len() > 0 {
        assert(rest =~= seq![' '] + v);
        assert(rest.drop_first() =~= v);
        assert(text::trim_start(rest) == text::trim_start(v));
        assert(text::trim(rest) == v);
    } else {
        assert(rest =~= Seq::<char>::empty());
        assert(text::trim(rest) =~= v);
    }
}

/// The header lines of a header list read back as the list.
pub proof fn lemma_header_items(hs: Seq<(Seq<char>, Seq<char>)>)
    requires
        headers_wf(hs),
    ensures
        message::header_items(hlines(hs)) == hs,
        lines_ok(hlines(hs)),
    decreases hs.len(),
{
    if hs.len() == 0 {
        assert(hlines(hs) =~= Seq::<Seq<char>>::empty());
        assert(hs =~= Seq::<(Seq<char>, Seq<char>)>::empty());
    } else {
        let d = hs.drop_last();
        assert(headers_wf(d)) by {
            assert forall|i: int| 0 <= i < d.len() implies header_wf(#[trigger] d[i]) by {
                assert(d[i] == hs[i]);
            }
        }
        lemma_header_items(d);
        assert(hs[hs.len() - 1] == hs.last());
        lemma_header_item(hs.last());
        assert(hlines(hs).drop_last() =~= hlines(d));
        assert(hlines(hs).last() == hline(hs.last()));
        assert(d.push(hs.last()) =~= hs);
        assert forall|i: int| 0 <= i < hlines(hs).len() implies (#[trigger] hlines(hs)[i]).len() > 0
            && no_cr_lf(hlines(hs)[i]) by {
            if i < d.len() {
                assert(hlines(hs)[i] == hlines(d)[i]);
            }
        }
    }
}

/// The bytes of a header list are the bytes of its lines joined.
pub proof fn lemma_headers_bytes(hs: Seq<(Seq<char>, Seq<char>)>)
    ensures
        message::headers_bytes(hs) == encode_utf8(join_lines(hlines(hs))),
    decreases hs.len(),
{
    if hs.len() == 0 {
        assert(hlines(hs) =~= Seq::<Seq<char>>::empty());
        assert(encode_utf8(Seq::<char>::empty()) =~= Seq::<u8>::empty());
    } else {
        let d = hs.drop_last();
        let h = hs.last();
        lemma_headers_bytes(d);
        assert(hlines(hs).drop_last() =~= hlines(d));
        assert(hlines(hs).last() == hline(h));
        let sep = seq![':', ' '];
        lemma_encode_ascii(sep);
        assert(sep.map_values(|c: char| c as u8) =~= seq![58u8, 32u8]);
        lemma_encode_crlf();
        lemma_encode_concat(h.0, sep);
        lemma_encode_concat(h.0 + sep, h.1);
        lemma_encode_concat(join_lines(hlines(d)), hline(h));
        lemma_encode_concat(join_lines(hlines(d)) + hline(h), message::crlf_chars());
        assert(message::headers_bytes(hs) =~= encode_utf8(join_lines(hlines(hs))));
    }
}

/// The line of a status line's text, without its `"\r\n"`.
pub open spec fn status_core(s: StatusLineV) -> Seq<char> {
    match s {
        StatusLineV::Request(l) => l.0 + message::sp() + l.1 + message::sp() + l.2,
        StatusLineV::Response(l) => l.0 + message::sp() + crate::number::dec(l.1 as nat)
            + message::sp() + match l.2 {
            Some(m) => m,
            None => Seq::<char>::empty(),
        },
    }
}

/// A well-formed status line, as a line of a message, reads back as itself.
pub proof fn lemma_status_core(s: StatusLineV)
    requires
        message::status_line_wf(s),
    ensures
        message::status_line_text(s) == status_core(s) + message::crlf_chars(),
        status_core(s).len() > 0,
        no_cr_lf(status_core(s)),
        message::status_line_ok(text::trim(status_core(s))),
        message::status_line_parse(text::trim(status_core(s))) == Ok::<StatusLineV, ErrorV>(s),
{
    reveal_strlit("GET");
    reveal_strlit("POST");
    reveal_strlit("PUT");
    reveal_strlit("PATCH");
    reveal_strlit("DELETE");
    reveal_strlit("HTTP/1.1");
    reveal_strlit("HTTP/1.0");
    let c = status_core(s);
    let e = Seq::<char>::empty();
    match s {
        StatusLineV::Request(l) => {
            assert(text::is_word(l.0));
            assert(c[0] == l.0[0]);
            assert(c.last() == l.2.last());
            text::lemma_trim_id(c);
            text::lemma_tokens_three(l.0, l.1, l.2, e);
            assert(c + e =~= c);
            assert(!message::is_response_word(l.0));
            assert forall|i: int| 0 <= i < c.len() implies #[trigger] c[i] != '\r' && c[i] != '\n' by {
                if i < l.0.len() {
                    assert(c[i] == l.0[i]);
                } else if i == l.0.len() {
                } else if i < l.0.len() + 1 + l.1.len() {
                    assert(c[i] == l.1[i - l.0.len() - 1]);
                } else if i == l.0.len() + 1 + l.1.len() {
                } else {
                    assert(c[i] == l.2[i - l.0.len() - 2 - l.1.len()]);
                }
            }
        },
        StatusLineV::Response(l) => {
            assert(text::is_word(l.0));
            crate::number::lemma_dec_digits(l.1 as nat);
            crate::number::lemma_parse_dec(l.1);
            let d = crate::number::dec(l.1 as nat);
            assert forall|i: int| 0 <= i < d.len() implies !text::is_ws(#[trigger] d[i]) by {
                assert(crate::number::is_digit(d[i]));
            }
            assert(c[0] == l.0[0]);
            let m = match l.2 {
                Some(m) => m,
                None => e,
            };
            match l.2 {
                Some(mm) => {
                    assert(c.last() == mm.last());
                    text::lemma_trim_id(c);
                    text::lemma_tokens_three(l.0, d, mm, e);
                    assert(c + e =~= c);
                },
                None => {
                    let c0 = l.0 + message::sp() + d;
                    assert(c =~= c0 + message::sp());
                    text::lemma_trim_end_ws(c0, message::sp());
                    assert(c0[0] == l.0[0]);
                    assert(c0.last() == d.last());
                    text::lemma_trim_id(c0);
                    assert(text::trim_start(c) == c);
                    assert(text::trim(c) == c0);
                    text::lemma_tokens_two(l.0, d, e);
                    assert(c0 + e =~= c0);
                },
            }
            assert(!message::is_method_word(l.0));
            assert forall|i: int| 0 <= i < c.len() implies #[trigger] c[i] != '\r' && c[i] != '\n' by {
                if i < l.0.len() {
                    assert(c[i] == l.0[i]);
                } else if i == l.0.len() {
                } else if i < l.0.len() + 1 + d.len() {
                    assert(c[i] == d[i - l.0.len() - 1]);
                } else if i == l.0.len() + 1 + d.len() {
                } else {
                    assert(c[i] == m[i - l.0.len() - 2 - d.len()]);
                }
            }
        },
    }
}


proof fn lemma_join_prefix(c: Seq<char>, ls: Seq<Seq<char>>)
    ensures
        join_lines(seq![c] + ls) == c + message::crlf_chars() + join_lines(ls),
    decreases ls.len(),
{
    if ls.len() == 0 {
        assert(seq![c] + ls =~= seq![c]);
        assert(seq![c].drop_last() =~= Seq::<Seq<char>>::empty());
        assert(join_lines(Seq::<Seq<char>>::empty()) =~= Seq::<char>::empty());
        assert(c + message::crlf_chars() + Seq::<char>::empty() =~= Seq::<char>::empty() + c
            + message::crlf_chars());
    } else {
        assert((seq![c] + ls).drop_last() =~= seq![c] + ls.drop_last());
        assert((seq![c] + ls).last() == ls.last());
        lemma_join_prefix(c, ls.drop_last());
        assert(join_lines(seq![c] + ls) =~= c + message::crlf_chars() + join_lines(ls));
    }
}

/// The text lines of a message's header part: its status line, then its
/// header lines.
pub open spec fn message_lines(st: StatusLineV, hs: Seq<(Seq<char>, Seq<char>)>) -> Seq<Seq<char>> {
    seq![status_core(st)] + hlines(hs)
}

/// Facts shared by both message kinds: the header part of a written message
/// is its text lines joined, and the header part with the body reads back
/// as those lines and that body.
proof fn lemma_header_block(ls: Seq<Seq<char>>, body: Seq<u8>)
    requires
        lines_ok(ls),
        ls.len() > 0,
    ensures
        ({
            let f = encode_utf8(join_lines(ls)) + message::body_bytes(body);
            &&& f.len() > 0
            &&& message::header_lines(f) == ls
            &&& message::body_of(f, message::header_split(f).1) == body
            &&& (message::header_split(f).1 matches Some(s) ==> 0 <= s <= f.len())
        }),
{
    let h = encode_utf8(join_lines(ls));
    let f = h + message::body_bytes(body);
    lemma_join_bytes(ls);
    let d = ls.drop_last();
    let l = ls.last();
    let p = encode_utf8(join_lines(d) + l);
    assert(join_lines(ls) == join_lines(d) + l + message::crlf_chars());
    lemma_encode_concat(join_lines(d) + l, message::crlf_chars());
    lemma_encode_crlf();
    assert(h == p + seq![13u8, 10u8]);
    if body.len() == 0 {
        assert(f =~= h);
        lemma_find_pat_none(h, message::crlf2(), 0);
        lemma_lines_join(ls);
        assert(message::body_of(f, None) =~= body);
    } else {
        assert(f =~= p + seq![13u8, 10u8, 13u8, 10u8] + body);
        let n = p.len() as int;
        assert(f.subrange(n, n + 4) =~= message::crlf2());
        assert forall|k: int| 0 <= k < n implies !bytes::occurs_at(f, message::crlf2(), k) by {
            if bytes::occurs_at(f, message::crlf2(), k) {
                assert(f.subrange(k, k + 4)[1] == 10u8);
                assert(f[k + 1] == 10u8);
                if k == n - 1 {
                    assert(f[n] == 13u8);
                } else {
                    assert(h.subrange(k, k + 4) =~= f.subrange(k, k + 4));
                    assert(bytes::occurs_at(h, message::crlf2(), k));
                }
            }
        }
        lemma_find_pat_at(f, message::crlf2(), 0, n);
        assert(f.take(n) =~= p);
        lemma_lines_join_open(ls);
        assert(f.skip(n + 4) =~= body);
    }
}

/// A message the tunnel reads back unchanged: a well-formed status line,
/// well-formed headers whose last `x-webhook-req-id` header holds the text
/// of the message's id, and marked complete (writing always ends it with the
/// end marker).
pub open spec fn message_wf(m: TunnelMessageV) -> bool {
    &&& message::status_line_wf(m.status_line)
    &&& headers_wf(m.headers)
    &&& message::req_id_text(m.headers) == Some(crate::id::uuid_text(m.id))
    &&& m.complete
}

/// The id of the headers is what the UUID parser makes of the text of the
/// last `x-webhook-req-id` header.
proof fn lemma_req_id(hs: Seq<(Seq<char>, Seq<char>)>, w: Seq<char>)
    requires
        message::req_id_text(hs) == Some(w),
    ensures
        message::req_id_of(hs) == crate::id::uuid_parse(w),
    decreases hs.len(),
{
    if hs.len() > 0 && hs.last().0 != message::WEBHOOK_REQ_ID@ {
        lemma_req_id(hs.drop_last(), w);
    }
}

/// Reading back a written message gives the message: the bytes of a
/// well-formed message carry the id's text in their `x-webhook-req-id`
/// header, and where the UUID parser reads that text back as the id, which
/// the parser itself reports when it reads the bytes, parsing them succeeds,
/// without a panic, with the same id, status line, headers and body,
/// complete.
pub proof fn lemma_message_roundtrip(m: TunnelMessageV)
    requires
        message_wf(m),
    ensures
        message::message_id_text(message::message_bytes(m)) == Some(crate::id::uuid_text(m.id)),
        crate::id::id_reads_back(m.id) ==> message::message_parse_ok(message::message_bytes(m)),
        crate::id::id_reads_back(m.id) ==> message::message_parse(message::message_bytes(m))
            == Ok::<TunnelMessageV, ErrorV>(m),
{
    lemma_req_id(m.headers, crate::id::uuid_text(m.id));
    let st = m.status_line;
    let hs = m.headers;
    lemma_status_core(st);
    lemma_header_items(hs);
    let ls = message_lines(st, hs);
    assert(lines_ok(ls)) by {
        assert forall|i: int| 0 <= i < ls.len() implies (#[trigger] ls[i]).len() > 0 && no_cr_lf(
            ls[i],
        ) by {
            if i > 0 {
                assert(ls[i] == hlines(hs)[i - 1]);
            }
        }
    }
    lemma_join_prefix(status_core(st), hlines(hs));
    lemma_headers_bytes(hs);
    lemma_encode_concat(status_core(st) + message::crlf_chars(), join_lines(hlines(hs)));
    let h = encode_utf8(join_lines(ls));
    assert(h == encode_utf8(message::status_line_text(st)) + message::headers_bytes(hs));
    lemma_header_block(ls, m.initial_body);
    let f = h + message::body_bytes(m.initial_body);
    let b = message::message_bytes(m);
    assert(b =~= f + message::eof_marker());
    assert(b.skip(b.len() - 15) =~= message::eof_marker());
    assert(message::eof_trim(b) == Some(f.len() as int));
    assert(b.take(f.len() as int) =~= f);
    assert(message::frame_of(b) == (f, true));
    assert(ls[0] == status_core(st));
    assert(ls.skip(1) =~= hlines(hs));
}


/// The hyphenated text of a UUID is a word without line breaks.
pub proof fn lemma_uuid_text_word(v: u128)
    ensures
        text::is_word(crate::id::uuid_text(v)),
        no_cr_lf(crate::id::uuid_text(v)),
{
    let t = crate::id::uuid_text(v);
    assert forall|i: int| 0 <= i < t.len() implies !text::is_ws(#[trigger] t[i]) && t[i] != '\r'
        && t[i] != '\n' by {
        if !(i == 8 || i == 13 || i == 18 || i == 23) {
            let n = crate::id::nibble(v, crate::id::digit_index(i));
            assert(0 <= n < 16);
            if n < 10 {
                assert(48 <= ('0' as u32) + n <= 57);
            } else {
                assert(97 <= ('a' as u32) + (n - 10) <= 102);
            }
        }
    }
}

/// A written webhook header line carries the version word and the id's
/// text as its two words; where the UUID parser reads that text back as the
/// id, reading the line back gives its version and id.
pub proof fn lemma_webhook_header_roundtrip(id: u128)
    ensures
        message::uuid_word_at(
            message::webhook_header_text(message::wh_version(), id),
            crate::id::uuid_text(id),
        ),
        crate::id::id_reads_back(id) ==> message::webhook_header_parse(
            message::webhook_header_text(message::wh_version(), id),
        ) == Some((message::wh_version(), id)),
{
    reveal_strlit("WH/1.0");
    let ver = message::wh_version();
    let u = crate::id::uuid_text(id);
    lemma_uuid_text_word(id);
    assert(text::is_word(ver));
    assert(text::is_ws('\r') && text::is_ws('\n'));
    text::lemma_tokens_two(ver, u, message::crlf_chars());
    assert(message::webhook_header_text(ver, id) =~= ver + seq![' '] + u + message::crlf_chars());
}

/// A message of the tunnel protocol that reads back unchanged: the current
/// header version, a well-formed status line and well-formed headers.
pub open spec fn message2_wf(m: TunnelMessage2V) -> bool {
    &&& m.header.0 == message::wh_version()
    &&& message::status_line_wf(m.http_line)
    &&& headers_wf(m.http_headers)
}

/// The text of the end marker.
pub open spec fn marker_text() -> Seq<char> {
    seq!['<', '<', '[', '[', '(', '(', '^', '_', '^', ')', ')', ']', ']', '>', '>']
}

/// What reading a written [`message::TunnelMessage2`] gives: the message,
/// with the end marker kept after its body when it has one. (Without a body
/// the marker stands after the last header line, which it does not read as
/// a header.)
pub open spec fn message2_read_back(m: TunnelMessage2V) -> TunnelMessage2V {
    TunnelMessage2V {
        http_body: if m.http_body.len() > 0 {
            m.http_body + message::eof_marker()
        } else {
            m.http_body
        },
        ..m
    }
}

/// Reading a buffer whose header lines are the header line of `m`, its
/// status line, its header lines and then lines that read as no header.
proof fn lemma_message2_from_lines(m: TunnelMessage2V, b: Seq<u8>, ls: Seq<Seq<char>>, body: Seq<u8>)
    requires
        message2_wf(m),
        b.len() > 0,
        message::header_lines(b) == ls,
        ls.len() >= 2,
        ls[0] == m.header.0 + message::sp() + crate::id::uuid_text(m.header.1),
        ls[1] == status_core(m.http_line),
        message::header_items(ls.skip(2)) == m.http_headers,
        message::body_of(b, message::header_split(b).1) == body,
    ensures
        message::message2_parse_ok(b),
        message::message2_id_at(b, crate::id::uuid_text(m.header.1)),
        crate::id::id_reads_back(m.header.1) ==> message::message2_parse(b) == Ok::<
            TunnelMessage2V,
            ErrorV,
        >(TunnelMessage2V { http_body: body, ..m }),
{
    reveal_strlit("WH/1.0");
    let (ver, id) = m.header;
    let u = crate::id::uuid_text(id);
    let wh = ls[0];
    lemma_uuid_text_word(id);
    assert(text::is_word(ver));
    assert(wh[0] == ver[0]);
    assert(wh.last() == u.last());
    text::lemma_trim_id(wh);
    text::lemma_tokens_two(ver, u, Seq::<char>::empty());
    assert(wh + Seq::<char>::empty() =~= wh);
    assert(message::uuid_word_at(text::trim(wh), u));
    lemma_status_core(m.http_line);
}

/// Reading back a written message of the tunnel protocol: its bytes read
/// without a panic; their header line carries the id's text; and where the
/// UUID parser reads that text back as the id, which the parser itself
/// reports when it reads the bytes, they read as the message with the end
/// marker kept after its body (see [`message2_read_back`]). The bytes before
/// the end marker read as the message itself.
#[verifier::spinoff_prover]
pub proof fn lemma_message2_roundtrip(m: TunnelMessage2V)
    requires
        message2_wf(m),
    ensures
        message::message2_parse_ok(message::message2_bytes(m)),
        message::message2_id_at(message::message2_bytes(m), crate::id::uuid_text(m.header.1)),
        crate::id::id_reads_back(m.header.1) ==> message::message2_parse(
            message::message2_bytes(m),
        ) == Ok::<TunnelMessage2V, ErrorV>(message2_read_back(m)),
        message::frame_of(message::message2_bytes(m)).0 == message::message2_frame(m),
        message::message2_parse_ok(message::message2_frame(m)),
        message::message2_id_at(message::message2_frame(m), crate::id::uuid_text(m.header.1)),
        crate::id::id_reads_back(m.header.1) ==> message::message2_parse(
            message::message2_frame(m),
        ) == Ok::<TunnelMessage2V, ErrorV>(m),
{
    let st = m.http_line;
    let hs = m.http_headers;
    let (ver, id) = m.header;
    let wh = ver + message::sp() + crate::id::uuid_text(id);
    lemma_uuid_text_word(id);
    reveal_strlit("WH/1.0");
    assert(message::webhook_header_text(ver, id) == wh + message::crlf_chars());
    assert(no_cr_lf(wh)) by {
        assert forall|i: int| 0 <= i < wh.len() implies #[trigger] wh[i] != '\r' && wh[i] != '\n' by {
            if i < ver.len() {
                assert(wh[i] == ver[i]);
            } else if i > ver.len() {
                assert(wh[i] == crate::id::uuid_text(id)[i - ver.len() - 1]);
            }
        }
    }
    lemma_status_core(st);
    lemma_header_items(hs);
    let tail = message_lines(st, hs);
    let ls = seq![wh] + tail;
    assert(lines_ok(ls)) by {
        assert forall|i: int| 0 <= i < ls.len() implies (#[trigger] ls[i]).len() > 0 && no_cr_lf(
            ls[i],
        ) by {
            if i > 1 {
                assert(ls[i] == hlines(hs)[i - 2]);
            } else if i == 1 {
                assert(ls[i] == status_core(st));
            }
        }
    }
    lemma_join_prefix(status_core(st), hlines(hs));
    lemma_join_prefix(wh, tail);
    lemma_headers_bytes(hs);
    lemma_encode_concat(status_core(st) + message::crlf_chars(), join_lines(hlines(hs)));
    lemma_encode_concat(wh + message::crlf_chars(), join_lines(tail));
    let h = encode_utf8(join_lines(ls));
    assert(h =~= encode_utf8(message::webhook_header_text(ver, id)) + encode_utf8(
        message::status_line_text(st),
    ) + message::headers_bytes(hs));
    assert(ls[0] == wh);
    assert(ls[1] == status_core(st));
    assert(ls.skip(2) =~= hlines(hs));
    let body = m.http_body;
    let marker = message::eof_marker();

    // The bytes before the end marker.
    lemma_header_block(ls, body);
    let f = h + message::body_bytes(body);
    assert(message::message2_frame(m) =~= f);
    lemma_message2_from_lines(m, f, ls, body);
    assert(TunnelMessage2V { http_body: body, ..m } == m);

    // The bytes with the end marker.
    let b = message::message2_bytes(m);
    assert(b.skip(b.len() - 15) =~= marker);
    assert(b.take(f.len() as int) =~= f);
    assert(message::frame_of(b).0 == f);
    if body.len() > 0 {
        lemma_header_block(ls, body + marker);
        assert(b =~= h + message::body_bytes(body + marker));
        lemma_message2_from_lines(m, b, ls, body + marker);
    } else {
        let ls2 = ls.push(marker_text());
        lemma_marker_line(ls);
        assert(b =~= h + marker);
        assert(ls2.skip(2).drop_last() =~= ls.skip(2));
        assert(ls2.skip(2).last() == marker_text());
        assert(message::body_of(b, None) =~= body);
        lemma_message2_from_lines(m, b, ls2, body);
    }
}

/// Header text followed by the end marker, without a blank line: the
/// marker is one more line of header text, and reads as no header.
proof fn lemma_marker_line(ls: Seq<Seq<char>>)
    requires
        lines_ok(ls),
        ls.len() > 0,
    ensures
        ({
            let b = encode_utf8(join_lines(ls)) + message::eof_marker();
            &&& message::header_split(b) == (b, Option::<int>::None)
            &&& message::header_lines(b) == ls.push(marker_text())
            &&& message::header_item(marker_text()) is None
        }),
{
    let h = encode_utf8(join_lines(ls));
    let marker = message::eof_marker();
    let b = h + marker;
    let mt = marker_text();
    assert(vstd::utf8::is_ascii_chars(mt));
    lemma_encode_ascii(mt);
    assert(mt.map_values(|c: char| c as u8) =~= marker);
    let ls2 = ls.push(mt);
    assert(lines_ok(ls2)) by {
        assert forall|i: int| 0 <= i < ls2.len() implies (#[trigger] ls2[i]).len() > 0 && no_cr_lf(
            ls2[i],
        ) by {
            if i < ls.len() {
                assert(ls2[i] == ls[i]);
            }
        }
    }
    lemma_join_bytes(ls2);
    assert(ls2.drop_last() =~= ls);
    assert(join_lines(ls2) == join_lines(ls) + mt + message::crlf_chars());
    lemma_encode_concat(join_lines(ls) + mt, message::crlf_chars());
    lemma_encode_concat(join_lines(ls), mt);
    lemma_encode_crlf();
    let whole = encode_utf8(join_lines(ls2));
    assert(whole =~= b + seq![13u8, 10u8]);
    assert forall|k: int| !bytes::occurs_at(b, message::crlf2(), k) by {
        if bytes::occurs_at(b, message::crlf2(), k) {
            assert(whole.subrange(k, k + 4) =~= b.subrange(k, k + 4));
            assert(bytes::occurs_at(whole, message::crlf2(), k));
        }
    }
    lemma_find_pat_none(b, message::crlf2(), 0);
    assert(b == encode_utf8(join_lines(ls) + mt));
    lemma_lines_join_open(ls2);
    text::lemma_trim_id(mt);
    text::lemma_find_from(mt, ':', 0);
}

/// The end marker occurs in `b` only at its end.
pub open spec fn marker_only_at_end(b: Seq<u8>) -> bool {
    b.len() >= 15 && bytes::find_pat_from(b, message::eof_marker(), 0) == Some(b.len() - 15)
}

/// The bytes of messages written one after another.
pub open spec fn messages_bytes(ms: Seq<TunnelMessageV>) -> Seq<u8>
    decreases ms.len(),
{
    if ms.len() == 0 {
        seq![]
    } else {
        message::message_bytes(ms[0]) + messages_bytes(ms.drop_first())
    }
}

proof fn lemma_occurs_shift(b: Seq<u8>, pre: Seq<u8>, rest: Seq<u8>, pat: Seq<u8>, k: int)
    requires
        0 <= k,
        k + pat.len() <= b.len(),
    ensures
        bytes::occurs_at(pre + b + rest, pat, pre.len() + k) == bytes::occurs_at(b, pat, k),
{
    let all = pre + b + rest;
    assert(all.subrange(pre.len() + k, pre.len() + k + pat.len()) =~= b.subrange(k, k + pat.len()));
}

/// Where a message's bytes sit in a buffer, the message found at their
/// start ends at their end.
proof fn lemma_chunk_in(pre: Seq<u8>, b: Seq<u8>, rest: Seq<u8>)
    requires
        marker_only_at_end(b),
    ensures
        message::chunk_end(pre + b + rest, pre.len() as int) == pre.len() + b.len(),
{
    let all = pre + b + rest;
    let n = pre.len() as int;
    let e = b.len() - 15;
    bytes::lemma_find_pat_from_bounds(b, message::eof_marker(), 0);
    lemma_occurs_shift(b, pre, rest, message::eof_marker(), e);
    assert forall|k: int| n <= k < n + e implies !bytes::occurs_at(all, message::eof_marker(), k) by {
        lemma_occurs_shift(b, pre, rest, message::eof_marker(), k - n);
        if bytes::occurs_at(b, message::eof_marker(), k - n) {
            lemma_first_occurrence(b, message::eof_marker(), 0, k - n);
        }
    }
    lemma_find_pat_at(all, message::eof_marker(), n, n + e);
}

/// No occurrence comes before the one a search from `i` finds.
proof fn lemma_first_occurrence(b: Seq<u8>, pat: Seq<u8>, i: int, k: int)
    requires
        0 <= i <= k,
        bytes::occurs_at(b, pat, k),
    ensures
        bytes::find_pat_from(b, pat, i) matches Some(p) && p <= k,
    decreases k - i,
{
    if !bytes::occurs_at(b, pat, i) {
        lemma_first_occurrence(b, pat, i + 1, k);
    }
}

/// One step of reading a run of messages: the message at `n` ends at `end`.
proof fn lemma_messages_step(all: Seq<u8>, n: int, end: int, m: TunnelMessageV)
    requires
        0 <= n < all.len(),
        end == message::chunk_end(all, n),
        message::message_parse(all.subrange(n, end)) == Ok::<TunnelMessageV, ErrorV>(m),
        message::message_parse_ok(all.subrange(n, end)),
    ensures
        message::messages_parse_from(all, n) == match message::messages_parse_from(all, end) {
            Ok(ms) => Ok::<Seq<TunnelMessageV>, ErrorV>(seq![m] + ms),
            Err(e) => Err(e),
        },
        message::messages_parse_ok_from(all, n) == message::messages_parse_ok_from(all, end),
{
}

#[verifier::spinoff_prover]
proof fn lemma_messages_from(pre: Seq<u8>, ms: Seq<TunnelMessageV>)
    requires
        forall|i: int| 0 <= i < ms.len() ==> message_wf(#[trigger] ms[i]) && marker_only_at_end(
            message::message_bytes(ms[i]),
        ) && crate::id::id_reads_back(ms[i].id),
    ensures
        message::messages_parse_from(pre + messages_bytes(ms), pre.len() as int) == Ok::<
            Seq<TunnelMessageV>,
            ErrorV,
        >(ms),
        message::messages_parse_ok_from(pre + messages_bytes(ms), pre.len() as int),
    decreases ms.len(),
{
    let all = pre + messages_bytes(ms);
    if ms.len() == 0 {
        assert(all.len() == pre.len());
        assert(ms =~= Seq::<TunnelMessageV>::empty());
    } else {
        let b = message::message_bytes(ms[0]);
        let rest = messages_bytes(ms.drop_first());
        assert(all =~= pre + b + rest);
        lemma_chunk_in(pre, b, rest);
        let n = pre.len() as int;
        assert(all.subrange(n, n + b.len()) =~= b);
        lemma_message_roundtrip(ms[0]);
        lemma_messages_step(all, n, n + b.len(), ms[0]);
        assert forall|i: int| 0 <= i < ms.drop_first().len() implies message_wf(
            #[trigger] ms.drop_first()[i],
        ) && marker_only_at_end(message::message_bytes(ms.drop_first()[i]))
            && crate::id::id_reads_back(ms.drop_first()[i].id) by {
            assert(ms.drop_first()[i] == ms[i + 1]);
        }
        lemma_messages_from(pre + b, ms.drop_first());
        assert(pre + b + rest =~= (pre + b) + rest);
        assert(seq![ms[0]] + ms.drop_first() =~= ms);
    }
}

/// Reading back messages written one after another gives the messages, in
/// order, without a panic, provided each message's bytes hold the end
/// marker only at their end (a body holding the marker would be cut there).
pub proof fn lemma_messages_roundtrip(ms: Seq<TunnelMessageV>)
    requires
        forall|i: int| 0 <= i < ms.len() ==> message_wf(#[trigger] ms[i]) && marker_only_at_end(
            message::message_bytes(ms[i]),
        ) && crate::id::id_reads_back(ms[i].id),
    ensures
        message::messages_parse_from(messages_bytes(ms), 0) == Ok::<Seq<TunnelMessageV>, ErrorV>(
            ms,
        ),
        message::messages_parse_ok_from(messages_bytes(ms), 0),
{
    lemma_messages_from(Seq::<u8>::empty(), ms);
    assert(Seq::<u8>::empty() + messages_bytes(ms) =~= messages_bytes(ms));
}


/// Where the body of a written message starts in its bytes.
pub open spec fn body_start(m: TunnelMessageV) -> int {
    message::message_bytes(m).len() - 15 - m.initial_body.len()
}

/// A written message that arrives in two parts, cut inside its body, is
/// read back whole: the first part parses, without a panic, as the message
/// holding the part of the body that arrived, not yet complete; adding the
/// second part to that body, as `accumulate_body` does up to the first end
/// marker, gives the whole body, completes the message and leaves nothing
/// after it. This holds where the message's bytes hold the end marker only
/// at their end.
#[verifier::spinoff_prover]
#[verifier::rlimit(40)]
pub proof fn lemma_split_message(m: TunnelMessageV, k: int)
    requires
        message_wf(m),
        crate::id::id_reads_back(m.id),
        m.initial_body.len() > 0,
        marker_only_at_end(message::message_bytes(m)),
        body_start(m) < k <= message::message_bytes(m).len() - 15,
    ensures
        ({
            let b = message::message_bytes(m);
            let first = b.take(k);
            let rest = b.skip(k);
            let part = m.initial_body.take(k - body_start(m));
            &&& message::message_parse_ok(first)
            &&& message::message_parse(first) == Ok::<TunnelMessageV, ErrorV>(
                TunnelMessageV { initial_body: part, complete: false, ..m },
            )
            &&& bytes::find_pat_from(rest, message::eof_marker(), 0) == Some(b.len() - 15 - k)
            &&& part + rest.take(b.len() - 15 - k) == m.initial_body
            &&& message::accumulate_next(rest) is None
        }),
{
    lemma_req_id(m.headers, crate::id::uuid_text(m.id));
    assert(message::req_id_of(m.headers) == Some(m.id));
    let b = message::message_bytes(m);
    let marker = message::eof_marker();
    let st = m.status_line;
    let hs = m.headers;
    lemma_status_core(st);
    lemma_header_items(hs);
    let ls = message_lines(st, hs);
    assert(lines_ok(ls)) by {
        assert forall|i: int| 0 <= i < ls.len() implies (#[trigger] ls[i]).len() > 0 && no_cr_lf(
            ls[i],
        ) by {
            if i > 0 {
                assert(ls[i] == hlines(hs)[i - 1]);
            }
        }
    }
    lemma_join_prefix(status_core(st), hlines(hs));
    lemma_headers_bytes(hs);
    lemma_encode_concat(status_core(st) + message::crlf_chars(), join_lines(hlines(hs)));
    let h = encode_utf8(join_lines(ls));
    assert(h == encode_utf8(message::status_line_text(st)) + message::headers_bytes(hs));
    let body = m.initial_body;
    let s = body_start(m);
    assert(b =~= h + seq![13u8, 10u8] + body + marker);
    assert(s == h.len() + 2);
    let part = body.take(k - s);
    lemma_header_block(ls, part);
    let first = b.take(k);
    assert(first =~= h + message::body_bytes(part));

    // The first part holds no end marker at its end.
    bytes::lemma_find_pat_from_bounds(b, marker, 0);
    assert(message::eof_trim(first) is None) by {
        if first.len() >= 15 && first.skip(first.len() - 15) == marker {
            assert(b.subrange(k - 15, k) =~= first.skip(first.len() - 15));
            lemma_first_occurrence(b, marker, 0, k - 15);
        }
    }
    assert(message::frame_of(first) == (first, false));
    assert(ls[0] == status_core(st));
    assert(ls.skip(1) =~= hlines(hs));

    // The rest holds its first end marker at its end.
    let rest = b.skip(k);
    let q = b.len() - 15 - k;
    assert forall|j: int| 0 <= j < q implies !bytes::occurs_at(rest, marker, j) by {
        if bytes::occurs_at(rest, marker, j) {
            assert(b.subrange(k + j, k + j + 15) =~= rest.subrange(j, j + 15));
            lemma_first_occurrence(b, marker, 0, k + j);
        }
    }
    assert(rest.subrange(q, q + 15) =~= b.subrange(b.len() - 15, b.len() as int));
    lemma_find_pat_at(rest, marker, 0, q);
    assert(part + rest.take(q) =~= body);
}

} // verus!
