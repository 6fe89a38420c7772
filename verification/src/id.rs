//! Message identifiers: 128-bit values written as hyphenated UUID text.

use vstd::prelude::*;
use vstd::arithmetic::power::pow;

verus! {

/// The lower-case hexadecimal digit for `n` in `0..16`.
pub open spec fn hex_digit(n: int) -> char {
    if n < 10 {
        (('0' as u32) + n) as char
    } else {
        (('a' as u32) + (n - 10)) as char
    }
}

/// The `k`-th hexadecimal digit of `v`, counting from the most significant.
pub open spec fn nibble(v: u128, k: int) -> int {
    (v as int / pow(16, (31 - k) as nat)) % 16
}

/// The index among the 32 digits of the character at position `i` of the
/// hyphenated text.
pub open spec fn digit_index(i: int) -> int {
    if i < 8 {
        i
    } else if i < 13 {
        i - 1
    } else if i < 18 {
        i - 2
    } else if i < 23 {
        i - 3
    } else {
        i - 4
    }
}

/// The hyphenated lower-case text of a UUID (8-4-4-4-12 hexadecimal digits),
/// as the `uuid` crate displays it.
pub open spec fn uuid_text(v: u128) -> Seq<char> {
    Seq::new(
        36,
        |i: int|
            if i == 8 || i == 13 || i == 18 || i == 23 {
                '-'
            } else {
                hex_digit(nibble(v, digit_index(i)))
            },
    )
}

/// What `uuid::Uuid::parse_str` makes of a text: the value, or `None` when
/// it is refused.
pub uninterp spec fn uuid_parse(s: Seq<char>) -> Option<u128>;

/// The UUID parser reads the text of `v` back as `v`. The parsers of this
/// library pass this on for every id text they read.
pub open spec fn id_reads_back(v: u128) -> bool {
    uuid_parse(uuid_text(v)) == Some(v)
}

/// Parses a UUID from text. Calls `uuid::Uuid::parse_str` and keeps its
/// 128-bit value (`Uuid::as_u128`). The contract names the result and states
/// the documented fact that hyphenated lower-case text is read back as the
/// value it was written from.
#[verifier::external_body]
pub(crate) fn parse_uuid(s: &str) -> (r: Option<u128>)
    ensures
        r == uuid_parse(s@),
        forall|v: u128| s@ == uuid_text(v) ==> r == Some(v),
{
    match uuid::Uuid::parse_str(s) {
        Ok(u) => Some(u.as_u128()),
        Err(_) => None,
    }
}

/// Writes a UUID as text. Calls `uuid::Uuid::from_u128` and its `Display`,
/// which the `uuid` crate documents as the hyphenated lower-case form.
#[verifier::external_body]
pub(crate) fn uuid_string(v: u128) -> (r: String)
    ensures
        r@ == uuid_text(v),
{
    uuid::Uuid::from_u128(v).to_string()
}

} // verus!
