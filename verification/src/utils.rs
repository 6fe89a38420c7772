//! Validation of the webhook path a server exposes.

use vstd::prelude::*;
use crate::text;
use crate::text::{chars_of, is_alphanumeric, str_bytes};

verus! {

/// A character allowed after the first one of a webhook path name.
pub open spec fn path_char_ok(c: char) -> bool {
    text::is_alnum(c) || c == '-' || c == '_'
}

/// A webhook path of the form `/name`: longer than one byte, starting with
/// `'/'`, then an alphanumeric character, then alphanumeric characters,
/// `'-'` or `'_'`.
pub open spec fn webhook_path_ok(s: Seq<char>) -> bool {
    &&& vstd::utf8::encode_utf8(s).len() > 1
    &&& s.len() >= 2
    &&& s[0] == '/'
    &&& text::is_alnum(s[1])
    &&& forall|k: int| 2 <= k < s.len() ==> path_char_ok(#[trigger] s[k])
}

proof fn lemma_one_byte_slash(s: Seq<char>)
    requires
        s.len() == 1,
        s[0] == '/',
    ensures
        vstd::utf8::encode_utf8(s).len() == 1,
{
    reveal_with_fuel(vstd::utf8::encode_utf8, 2);
    assert(s.drop_first().len() == 0);
}

/// Whether `value` is a valid webhook path.
pub fn valid_webhook_path(value: &str) -> (r: bool)
    ensures
        r == webhook_path_ok(value@),
{
    let chars = chars_of(value);
    let nbytes = str_bytes(value).len();
    if nbytes > 1 && chars.len() > 0 && chars[0] == '/' {
        proof {
            if chars@.len() == 1 {
                lemma_one_byte_slash(chars@);
            }
        }
        // Next character after "/" must be an alpha-numeric character
        if !is_alphanumeric(chars[1]) {
            return false;
        }
        // All characters after this can be either alphanumeric or dash or underscore
        let mut i: usize = 2;
        while i < chars.len()
            invariant
                2 <= i <= chars@.len(),
                chars@ == value@,
                forall|k: int| 2 <= k < i ==> path_char_ok(#[trigger] chars@[k]),
            decreases chars.len() - i,
        {
            let ch = chars[i];
            if !is_alphanumeric(ch) && ch != '-' && ch != '_' {
                assert(!path_char_ok(chars@[i as int]));
                return false;
            }
            i = i + 1;
        }
        return true;
    }
    false
}


/// An ASCII letter or digit.
pub open spec fn ascii_letter_or_digit(c: char) -> bool {
    ('a' <= c <= 'z') || ('A' <= c <= 'Z') || ('0' <= c <= '9')
}

/// An ASCII path of the form `/name` is valid exactly when its name starts
/// with a letter or digit and goes on with letters, digits, `'-'` and
/// `'_'` (so `/hook2` and `/v1` are valid, `/_foo` and `/foo?` are not).
pub proof fn lemma_ascii_webhook_path(s: Seq<char>)
    requires
        s.len() >= 2,
        s[0] == '/',
        forall|k: int| 0 <= k < s.len() ==> '\0' <= #[trigger] s[k] <= '\u{7f}',
    ensures
        webhook_path_ok(s) <==> (ascii_letter_or_digit(s[1]) && forall|k: int|
            2 <= k < s.len() ==> ascii_letter_or_digit(#[trigger] s[k]) || s[k] == '-' || s[k]
                == '_'),
{
    assert(vstd::utf8::is_ascii_chars(s));
    vstd::utf8::is_ascii_chars_encode_utf8(s);
    assert(vstd::utf8::encode_utf8(s).len() == s.len());
    if ascii_letter_or_digit(s[1]) && forall|k: int|
        2 <= k < s.len() ==> ascii_letter_or_digit(#[trigger] s[k]) || s[k] == '-' || s[k] == '_' {
        assert forall|k: int| 2 <= k < s.len() implies path_char_ok(#[trigger] s[k]) by {
            assert('\0' <= s[k] <= '\u{7f}');
        }
    }
    if webhook_path_ok(s) {
        assert forall|k: int| 2 <= k < s.len() implies ascii_letter_or_digit(#[trigger] s[k])
            || s[k] == '-' || s[k] == '_' by {
            assert(path_char_ok(s[k]));
            assert('\0' <= s[k] <= '\u{7f}');
        }
    }
}

} // verus!
