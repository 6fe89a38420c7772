//! Character-level helpers: whitespace, trimming, tokens and lines, modelled
//! over `Seq<char>` and implemented on `Vec<char>`.

use vstd::prelude::*;

verus! {

broadcast use vstd::string::group_string_axioms;

/// The Unicode `White_Space` property, as `char::is_whitespace` defines it.
pub open spec fn is_ws(c: char) -> bool {
    ||| ('\u{9}' <= c && c <= '\u{d}')
    ||| c == ' '
    ||| c == '\u{85}'
    ||| c == '\u{a0}'
    ||| c == '\u{1680}'
    ||| ('\u{2000}' <= c && c <= '\u{200a}')
    ||| c == '\u{2028}'
    ||| c == '\u{2029}'
    ||| c == '\u{202f}'
    ||| c == '\u{205f}'
    ||| c == '\u{3000}'
}

/// Executable whitespace test.
pub fn char_is_ws(c: char) -> (r: bool)
    ensures
        r == is_ws(c),
{
    ('\u{9}' <= c && c <= '\u{d}') || c == ' ' || c == '\u{85}' || c == '\u{a0}' || c == '\u{1680}'
        || ('\u{2000}' <= c && c <= '\u{200a}') || c == '\u{2028}' || c == '\u{2029}' || c
        == '\u{202f}' || c == '\u{205f}' || c == '\u{3000}'
}

/// The characters of a string slice, in order.
pub fn chars_of(s: &str) -> (v: Vec<char>)
    ensures
        v@ == s@,
{
    let mut v: Vec<char> = Vec::new();
    for c in it: s.chars()
        invariant
            v@ == it.seq().take(it.index() as int),
    {
        v.push(c);
    }
    v
}

/// A `String` holding exactly the given characters (`String::from_iter`).
#[verifier::external_body]
pub(crate) fn string_from_chars(v: &[char]) -> (s: String)
    ensures
        s@ == v@,
{
    String::from_iter(v.iter())
}


/// The contents of a vector of character vectors.
pub open spec fn views(v: Seq<Vec<char>>) -> Seq<Seq<char>> {
    v.map_values(|x: Vec<char>| x@)
}

/// The contents of a vector of strings.
pub open spec fn str_views(v: Seq<String>) -> Seq<Seq<char>> {
    v.map_values(|x: String| x@)
}

/// `s` with leading whitespace removed.
pub open spec fn trim_start(s: Seq<char>) -> Seq<char>
    decreases s.len(),
{
    if s.len() > 0 && is_ws(s[0]) {
        trim_start(s.drop_first())
    } else {
        s
    }
}

/// `s` with trailing whitespace removed.
pub open spec fn trim_end(s: Seq<char>) -> Seq<char>
    decreases s.len(),
{
    if s.len() > 0 && is_ws(s.last()) {
        trim_end(s.drop_last())
    } else {
        s
    }
}

/// `s` with leading and trailing whitespace removed (`str::trim`).
pub open spec fn trim(s: Seq<char>) -> Seq<char> {
    trim_end(trim_start(s))
}

/// Copy of `v[lo..hi]`.
pub fn sub_chars(v: &[char], lo: usize, hi: usize) -> (r: Vec<char>)
    requires
        lo <= hi <= v@.len(),
    ensures
        r@ == v@.subrange(lo as int, hi as int),
{
    let mut r: Vec<char> = Vec::new();
    let mut i: usize = lo;
    while i < hi
        invariant
            lo <= i <= hi <= v@.len(),
            r@ == v@.subrange(lo as int, i as int),
        decreases hi - i,
    {
        r.push(v[i]);
        i = i + 1;
    }
    r
}

/// Executable `trim` on characters.
pub fn trim_chars(v: &[char]) -> (r: Vec<char>)
    ensures
        r@ == trim(v@),
{
    let n = v.len();
    let mut lo: usize = 0;
    assert(v@.subrange(0, n as int) =~= v@);
    while lo < n && char_is_ws(v[lo])
        invariant
            lo <= n == v@.len(),
            trim_start(v@) == trim_start(v@.subrange(lo as int, n as int)),
        decreases n - lo,
    {
        assert(v@.subrange(lo as int, n as int).drop_first() =~= v@.subrange(lo + 1, n as int));
        lo = lo + 1;
    }
    assert(trim_start(v@) =~= v@.subrange(lo as int, n as int));
    let ghost t = v@.subrange(lo as int, n as int);
    let mut hi: usize = n;
    while hi > lo && char_is_ws(v[hi - 1])
        invariant
            lo <= hi <= n == v@.len(),
            t == v@.subrange(lo as int, n as int),
            trim_end(t) == trim_end(v@.subrange(lo as int, hi as int)),
        decreases hi - lo,
    {
        assert(v@.subrange(lo as int, hi as int).drop_last() =~= v@.subrange(
            lo as int,
            hi - 1,
        ));
        hi = hi - 1;
    }
    assert(trim_end(t) =~= v@.subrange(lo as int, hi as int));
    sub_chars(v, lo, hi)
}

/// Executable `str::trim`.
pub fn trim_str(s: &str) -> (r: String)
    ensures
        r@ == trim(s@),
{
    let v = chars_of(s);
    let t = trim_chars(v.as_slice());
    string_from_chars(t.as_slice())
}

/// Scan state of `split_whitespace` after reading `s`: finished tokens and
/// the token being read.
pub open spec fn tok_scan(s: Seq<char>) -> (Seq<Seq<char>>, Seq<char>)
    decreases s.len(),
{
    if s.len() == 0 {
        (seq![], seq![])
    } else {
        let (done, cur) = tok_scan(s.drop_last());
        if is_ws(s.last()) {
            if cur.len() > 0 {
                (done.push(cur), seq![])
            } else {
                (done, cur)
            }
        } else {
            (done, cur.push(s.last()))
        }
    }
}

/// The maximal runs of non-whitespace characters of `s`, in order
/// (`str::split_whitespace`).
pub open spec fn tokens(s: Seq<char>) -> Seq<Seq<char>> {
    let (done, cur) = tok_scan(s);
    if cur.len() > 0 {
        done.push(cur)
    } else {
        done
    }
}

/// Executable `split_whitespace`, collected.
pub fn split_ws(v: &[char]) -> (r: Vec<Vec<char>>)
    ensures
        views(r@) == tokens(v@),
{
    let mut done: Vec<Vec<char>> = Vec::new();
    let mut cur: Vec<char> = Vec::new();
    let n = v.len();
    let mut i: usize = 0;
    while i < n
        invariant
            i <= n == v@.len(),
            (views(done@), cur@) == tok_scan(v@.take(i as int)),
        decreases n - i,
    {
        assert(v@.take(i + 1).drop_last() =~= v@.take(i as int));
        let c = v[i];
        if char_is_ws(c) {
            if cur.len() > 0 {
                let ghost d = done@;
                let ghost c0 = cur@;
                done.push(cur);
                assert(views(done@) =~= views(d).push(c0));
                cur = Vec::new();
            }
        } else {
            cur.push(c);
        }
        i = i + 1;
    }
    assert(v@.take(n as int) =~= v@);
    if cur.len() > 0 {
        let ghost d = done@;
        let ghost c = cur@;
        done.push(cur);
        assert(views(done@) =~= views(d).push(c));
    }
    done
}


/// A line without its `'\r'` terminator, if it has one.
pub open spec fn strip_cr(l: Seq<char>) -> Seq<char> {
    if l.len() > 0 && l.last() == '\r' {
        l.drop_last()
    } else {
        l
    }
}

/// Scan state of `str::lines` after reading `s`: finished lines and the line
/// being read.
pub open spec fn line_scan(s: Seq<char>) -> (Seq<Seq<char>>, Seq<char>)
    decreases s.len(),
{
    if s.len() == 0 {
        (seq![], seq![])
    } else {
        let (done, cur) = line_scan(s.drop_last());
        if s.last() == '\n' {
            (done.push(strip_cr(cur)), seq![])
        } else {
            (done, cur.push(s.last()))
        }
    }
}

/// The lines of `s` (`str::lines`): split at `'\n'`, a `'\r'` just before a
/// `'\n'` dropped, and no empty line after a final `'\n'`.
pub open spec fn lines(s: Seq<char>) -> Seq<Seq<char>> {
    let (done, cur) = line_scan(s);
    if cur.len() > 0 {
        done.push(cur)
    } else {
        done
    }
}

/// Executable `str::lines`, collected.
pub fn split_lines(v: &[char]) -> (r: Vec<Vec<char>>)
    ensures
        views(r@) == lines(v@),
{
    let mut done: Vec<Vec<char>> = Vec::new();
    let mut cur: Vec<char> = Vec::new();
    let n = v.len();
    let mut i: usize = 0;
    while i < n
        invariant
            i <= n == v@.len(),
            (views(done@), cur@) == line_scan(v@.take(i as int)),
        decreases n - i,
    {
        assert(v@.take(i + 1).drop_last() =~= v@.take(i as int));
        let c = v[i];
        if c == '\n' {
            let ghost d = done@;
            let ghost c0 = cur@;
            let k = cur.len();
            let line = if k > 0 && cur[k - 1] == '\r' {
                sub_chars(cur.as_slice(), 0, k - 1)
            } else {
                cur
            };
            assert(line@ == strip_cr(c0));
            done.push(line);
            assert(views(done@) =~= views(d).push(strip_cr(c0)));
            cur = Vec::new();
        } else {
            cur.push(c);
        }
        i = i + 1;
    }
    assert(v@.take(n as int) =~= v@);
    if cur.len() > 0 {
        let ghost d = done@;
        let ghost c = cur@;
        done.push(cur);
        assert(views(done@) =~= views(d).push(c));
    }
    done
}

/// Index of the first `c` in `s` at or after `i`, or `s.len()` when none.
pub open spec fn find_from(s: Seq<char>, c: char, i: int) -> int
    decreases s.len() - i,
{
    if i < 0 || i >= s.len() {
        s.len() as int
    } else if s[i] == c {
        i
    } else {
        find_from(s, c, i + 1)
    }
}

/// A search that runs off the end saw no `c`; one that stops found `c`
/// there, and none before.
pub proof fn lemma_find_from(s: Seq<char>, c: char, i: int)
    requires
        0 <= i <= s.len(),
    ensures
        i <= find_from(s, c, i) <= s.len(),
        forall|k: int| i <= k < find_from(s, c, i) ==> s[k] != c,
        find_from(s, c, i) < s.len() ==> s[find_from(s, c, i)] == c,
    decreases s.len() - i,
{
    if i < s.len() && s[i] != c {
        lemma_find_from(s, c, i + 1);
    }
}

/// A search from `i` stops at the first `c`.
pub proof fn lemma_find_from_at(s: Seq<char>, c: char, i: int, j: int)
    requires
        0 <= i <= j < s.len(),
        s[j] == c,
        forall|k: int| i <= k < j ==> s[k] != c,
    ensures
        find_from(s, c, i) == j,
    decreases j - i,
{
    if i < j {
        lemma_find_from_at(s, c, i + 1, j);
    }
}

/// A sequence without `c` has no occurrence of it to count.
pub proof fn lemma_count_none(s: Seq<char>, c: char)
    requires
        forall|k: int| 0 <= k < s.len() ==> s[k] != c,
    ensures
        count_char(s, c) == 0,
    decreases s.len(),
{
    if s.len() > 0 {
        lemma_count_none(s.drop_last(), c);
    }
}

/// Executable `find_from(v, c, 0)`.
pub fn find_char(v: &[char], c: char) -> (r: usize)
    ensures
        r == find_from(v@, c, 0),
        r <= v@.len(),
{
    let n = v.len();
    let mut i: usize = 0;
    while i < n && v[i] != c
        invariant
            i <= n == v@.len(),
            find_from(v@, c, 0) == find_from(v@, c, i as int),
        decreases n - i,
    {
        i = i + 1;
    }
    i
}

/// Number of occurrences of `c` in `s`.
pub open spec fn count_char(s: Seq<char>, c: char) -> nat
    decreases s.len(),
{
    if s.len() == 0 {
        0
    } else {
        count_char(s.drop_last(), c) + if s.last() == c {
            1nat
        } else {
            0nat
        }
    }
}

/// Executable `count_char`.
pub fn count_chars(v: &[char], c: char) -> (r: usize)
    ensures
        r == count_char(v@, c),
{
    let n = v.len();
    let mut i: usize = 0;
    let mut k: usize = 0;
    while i < n
        invariant
            i <= n == v@.len(),
            k == count_char(v@.take(i as int), c),
            k <= i,
        decreases n - i,
    {
        assert(v@.take(i + 1).drop_last() =~= v@.take(i as int));
        if v[i] == c {
            k = k + 1;
        }
        i = i + 1;
    }
    assert(v@.take(n as int) =~= v@);
    k
}

/// `p` is a prefix of `s`.
pub open spec fn has_prefix(s: Seq<char>, p: Seq<char>) -> bool {
    p.len() <= s.len() && s.subrange(0, p.len() as int) == p
}

/// Executable `has_prefix`.
pub fn starts_with_chars(s: &[char], p: &[char]) -> (r: bool)
    ensures
        r == has_prefix(s@, p@),
{
    if p.len() > s.len() {
        return false;
    }
    let mut i: usize = 0;
    while i < p.len()
        invariant
            p@.len() <= s@.len(),
            i <= p@.len(),
            forall|k: int| 0 <= k < i ==> s@[k] == p@[k],
        decreases p.len() - i,
    {
        if s[i] != p[i] {
            assert(s@.subrange(0, p@.len() as int)[i as int] != p@[i as int]);
            return false;
        }
        i = i + 1;
    }
    assert(s@.subrange(0, p@.len() as int) =~= p@);
    true
}

/// Appends the characters of `s` to `v`.
pub fn push_str(v: &mut Vec<char>, s: &str)
    ensures
        final(v)@ == old(v)@ + s@,
{
    let cs = chars_of(s);
    let mut i: usize = 0;
    while i < cs.len()
        invariant
            i <= cs@.len(),
            cs@ == s@,
            v@ == old(v)@ + cs@.take(i as int),
        decreases cs.len() - i,
    {
        assert(cs@.take(i + 1) =~= cs@.take(i as int).push(cs@[i as int]));
        v.push(cs[i]);
        i = i + 1;
    }
    assert(cs@.take(cs@.len() as int) =~= cs@);
}

/// What `String::from_utf8_lossy` makes of a byte sequence.
pub uninterp spec fn lossy_utf8(b: Seq<u8>) -> Seq<char>;

/// The text of a byte sequence: its UTF-8 decoding when it is valid UTF-8,
/// else what `String::from_utf8_lossy` makes of it.
pub open spec fn decoded_utf8(b: Seq<u8>) -> Seq<char> {
    if vstd::utf8::valid_utf8(b) {
        vstd::utf8::decode_utf8(b)
    } else {
        lossy_utf8(b)
    }
}

/// Decodes bytes as UTF-8, replacing each invalid sequence by U+FFFD.
/// Calls `String::from_utf8_lossy`; the contract states the documented fact
/// that valid UTF-8 is decoded unchanged and names the result otherwise.
#[verifier::external_body]
pub(crate) fn decode_lossy(b: &[u8]) -> (s: String)
    ensures
        s@ == decoded_utf8(b@),
        !vstd::utf8::valid_utf8(b@) ==> s@ == lossy_utf8(b@),
{
    String::from_utf8_lossy(b).into_owned()
}

/// ASCII letters mapped to lower case, other characters kept.
pub open spec fn ascii_lower(c: char) -> char {
    if 'A' <= c && c <= 'Z' {
        ((c as u32) + 32) as char
    } else {
        c
    }
}

/// What `str::to_lowercase` makes of a character sequence.
pub uninterp spec fn lowercase(s: Seq<char>) -> Seq<char>;

/// The lower case of a text: on ASCII text each letter mapped to its ASCII
/// lower case, otherwise what `str::to_lowercase` makes of it.
pub open spec fn lower_text(s: Seq<char>) -> Seq<char> {
    if vstd::utf8::is_ascii_chars(s) {
        s.map_values(|c: char| ascii_lower(c))
    } else {
        lowercase(s)
    }
}

/// Lower-cases a string by Unicode rules. Calls `str::to_lowercase`; the
/// contract states that on ASCII input each letter is mapped to its ASCII
/// lower case, and names the result otherwise.
#[verifier::external_body]
pub(crate) fn to_lowercase(s: &str) -> (r: String)
    ensures
        r@ == lower_text(s@),
        !vstd::utf8::is_ascii_chars(s@) ==> r@ == lowercase(s@),
{
    s.to_lowercase()
}

/// ASCII letters and digits.
pub open spec fn is_ascii_alnum(c: char) -> bool {
    ('a' <= c && c <= 'z') || ('A' <= c && c <= 'Z') || ('0' <= c && c <= '9')
}

/// Whether a character is alphabetic or numeric by Unicode rules.
pub uninterp spec fn alnum(c: char) -> bool;

/// Alphabetic or numeric: on ASCII exactly the letters and digits,
/// otherwise as `char::is_alphanumeric` decides by Unicode rules.
pub open spec fn is_alnum(c: char) -> bool {
    if (c as u32) < 128 {
        is_ascii_alnum(c)
    } else {
        alnum(c)
    }
}

/// Calls `char::is_alphanumeric`; the contract states that on ASCII
/// characters it holds exactly of letters and digits, and names the result
/// otherwise.
#[verifier::external_body]
pub(crate) fn is_alphanumeric(c: char) -> (r: bool)
    ensures
        r == is_alnum(c),
        (c as u32) >= 128 ==> r == alnum(c),
{
    c.is_alphanumeric()
}


/// Executable equality of character sequences.
pub fn eq_chars(a: &[char], b: &[char]) -> (r: bool)
    ensures
        r == (a@ == b@),
{
    if a.len() != b.len() {
        return false;
    }
    let mut i: usize = 0;
    while i < a.len()
        invariant
            a@.len() == b@.len(),
            i <= a@.len(),
            forall|k: int| 0 <= k < i ==> a@[k] == b@[k],
        decreases a.len() - i,
    {
        if a[i] != b[i] {
            return false;
        }
        i = i + 1;
    }
    assert(a@ =~= b@);
    true
}

/// `a` equals the text `s`.
pub fn eq_str(a: &[char], s: &str) -> (r: bool)
    ensures
        r == (a@ == s@),
{
    let b = chars_of(s);
    eq_chars(a, b.as_slice())
}

/// The UTF-8 bytes of a string, copied.
pub fn str_bytes(s: &str) -> (r: Vec<u8>)
    ensures
        r@ == vstd::utf8::encode_utf8(s@),
{
    let b = s.as_bytes();
    crate::bytes::sub_bytes(b, 0, b.len())
}


/// A word: non-empty, without whitespace.
pub open spec fn is_word(w: Seq<char>) -> bool {
    w.len() > 0 && forall|i: int| 0 <= i < w.len() ==> !is_ws(#[trigger] w[i])
}

/// Reading a run of non-whitespace extends the token being read.
pub proof fn lemma_tok_scan_chars(s: Seq<char>, w: Seq<char>)
    requires
        forall|i: int| 0 <= i < w.len() ==> !is_ws(#[trigger] w[i]),
    ensures
        tok_scan(s + w) == (tok_scan(s).0, tok_scan(s).1 + w),
    decreases w.len(),
{
    if w.len() == 0 {
        assert(s + w =~= s);
        assert(tok_scan(s).1 + w =~= tok_scan(s).1);
    } else {
        let w0 = w.drop_last();
        assert((s + w).drop_last() =~= s + w0);
        assert((s + w).last() == w.last());
        assert(!is_ws(w[w.len() - 1]));
        lemma_tok_scan_chars(s, w0);
        assert(tok_scan(s).1 + w0 + seq![w.last()] =~= tok_scan(s).1 + w);
        assert((tok_scan(s).1 + w0).push(w.last()) =~= tok_scan(s).1 + w);
    }
}

/// Reading a whitespace character ends the token being read.
pub proof fn lemma_tok_scan_ws(s: Seq<char>, c: char)
    requires
        is_ws(c),
    ensures
        tok_scan(s.push(c)) == (if tok_scan(s).1.len() > 0 {
            (tok_scan(s).0.push(tok_scan(s).1), Seq::<char>::empty())
        } else {
            tok_scan(s)
        }),
{
    assert(s.push(c).drop_last() =~= s);
}

/// The tokens of words joined by single spaces, with trailing whitespace,
/// are those words.
pub proof fn lemma_tokens_three(a: Seq<char>, b: Seq<char>, c: Seq<char>, tail: Seq<char>)
    requires
        is_word(a),
        is_word(b),
        is_word(c),
        forall|i: int| 0 <= i < tail.len() ==> is_ws(#[trigger] tail[i]),
    ensures
        tokens(a + seq![' '] + b + seq![' '] + c + tail) == seq![a, b, c],
{
    let e = Seq::<char>::empty();
    assert(tok_scan(e) == (Seq::<Seq<char>>::empty(), e));
    lemma_tok_scan_chars(e, a);
    assert(e + a =~= a);
    lemma_tok_scan_ws(a, ' ');
    lemma_tok_scan_chars(a.push(' '), b);
    lemma_tok_scan_ws(a.push(' ') + b, ' ');
    lemma_tok_scan_chars((a.push(' ') + b).push(' '), c);
    let pre = (a.push(' ') + b).push(' ') + c;
    assert(tok_scan(pre) == (seq![a, b], c));
    if tail.len() > 0 {
        lemma_tok_scan_ws_run(pre, tail);
    } else {
        assert(pre + tail =~= pre);
    }
    assert(pre + tail =~= a + seq![' '] + b + seq![' '] + c + tail);
    assert(seq![a, b].push(c) =~= seq![a, b, c]);
}

/// The tokens of two words joined by a single space, with trailing
/// whitespace, are those words.
pub proof fn lemma_tokens_two(a: Seq<char>, b: Seq<char>, tail: Seq<char>)
    requires
        is_word(a),
        is_word(b),
        forall|i: int| 0 <= i < tail.len() ==> is_ws(#[trigger] tail[i]),
    ensures
        tokens(a + seq![' '] + b + tail) == seq![a, b],
{
    let e = Seq::<char>::empty();
    assert(tok_scan(e) == (Seq::<Seq<char>>::empty(), e));
    lemma_tok_scan_chars(e, a);
    assert(e + a =~= a);
    lemma_tok_scan_ws(a, ' ');
    lemma_tok_scan_chars(a.push(' '), b);
    let pre = a.push(' ') + b;
    assert(tok_scan(pre) == (seq![a], b));
    if tail.len() > 0 {
        lemma_tok_scan_ws_run(pre, tail);
    } else {
        assert(pre + tail =~= pre);
    }
    assert(pre + tail =~= a + seq![' '] + b + tail);
    assert(seq![a].push(b) =~= seq![a, b]);
}

/// A run of whitespace ends the token being read, and adds nothing more.
pub proof fn lemma_tok_scan_ws_run(s: Seq<char>, tail: Seq<char>)
    requires
        tail.len() > 0,
        forall|i: int| 0 <= i < tail.len() ==> is_ws(#[trigger] tail[i]),
    ensures
        tok_scan(s + tail) == (if tok_scan(s).1.len() > 0 {
            (tok_scan(s).0.push(tok_scan(s).1), Seq::<char>::empty())
        } else {
            tok_scan(s)
        }),
    decreases tail.len(),
{
    let t0 = tail.drop_last();
    assert((s + tail) =~= (s + t0).push(tail.last()));
    assert(is_ws(tail[tail.len() - 1]));
    lemma_tok_scan_ws(s + t0, tail.last());
    if t0.len() > 0 {
        lemma_tok_scan_ws_run(s, t0);
    } else {
        assert(s + t0 =~= s);
    }
}

/// A sequence that neither starts nor ends with whitespace is its own trim.
pub proof fn lemma_trim_id(s: Seq<char>)
    requires
        s.len() > 0,
        !is_ws(s[0]),
        !is_ws(s.last()),
    ensures
        trim(s) == s,
{
}

/// Trailing whitespace is trimmed away.
pub proof fn lemma_trim_end_ws(s: Seq<char>, tail: Seq<char>)
    requires
        forall|i: int| 0 <= i < tail.len() ==> is_ws(#[trigger] tail[i]),
    ensures
        trim_end(s + tail) == trim_end(s),
    decreases tail.len(),
{
    if tail.len() > 0 {
        assert((s + tail).drop_last() =~= s + tail.drop_last());
        assert(is_ws(tail[tail.len() - 1]));
        lemma_trim_end_ws(s, tail.drop_last());
    } else {
        assert(s + tail =~= s);
    }
}

} // verus!
