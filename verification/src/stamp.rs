//! Fresh identifiers and the present time.
use crate::text;
use vstd::prelude::*;

verus! {

pub open spec fn is_hex(c: char) -> bool {
    text::is_digit(c) || ('a' <= c && c <= 'f')
}

/// 32 lower-case hexadecimal digits.
pub open spec fn hex_digits(s: Seq<char>) -> bool {
    &&& s.len() == 32
    &&& forall|i: int| 0 <= i < s.len() ==> is_hex(#[trigger] s[i])
}

/// A random identifier: `Uuid::new_v4` in its simple form, 32 lower-case
/// hexadecimal digits. Which ones they are rests on chance.
#[verifier::external_body]
pub(crate) fn fresh_hex() -> (r: String)
    ensures
        hex_digits(r@),
{
    uuid::Uuid::new_v4().simple().to_string()
}

/// A digit of the base 32 that identifiers of facts are written in.
pub open spec fn is_base32(c: char) -> bool {
    text::is_digit(c) || ('A' <= c && c <= 'Z' && c != 'I' && c != 'L' && c != 'O' && c != 'U')
}

/// 26 digits in base 32.
pub open spec fn base32_digits(s: Seq<char>) -> bool {
    &&& s.len() == 26
    &&& forall|i: int| 0 <= i < s.len() ==> is_base32(#[trigger] s[i])
}

/// An identifier that sorts by its time: `Ulid::new`, written by `to_string` in
/// 26 digits. Which ones they are rests on the clock and on chance.
#[verifier::external_body]
pub(crate) fn fresh_ulid() -> (r: String)
    ensures
        base32_digits(r@),
{
    ulid::Ulid::new().to_string()
}

/// The present time as `chrono::Utc::now` gives it, in RFC 3339. Nothing is
/// claimed of it: it rests on the clock.
#[verifier::external_body]
pub(crate) fn now_text() -> (r: String) {
    chrono::Utc::now().to_rfc3339()
}

} // verus!
