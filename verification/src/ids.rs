//! Fresh identifiers and timestamps, drawn from the outside world behind
//! trusted contracts.

use vstd::prelude::*;

verus! {

/// Text that can sit inside a JSON string literal and a raw file without
/// escaping: printable ASCII holding neither `"` nor `\`.
pub open spec fn plain_ascii(s: Seq<char>) -> bool {
    forall|i: int|
        0 <= i < s.len() ==> 0x20 <= (s[i] as int) <= 0x7e && s[i] != '"' && s[i] != '\\'
}

/// Relies on `uuid::Uuid::new_v4` and its `Display` form: a fresh random
/// identifier rendered as 36 characters of lowercase hexadecimal and
/// hyphens. The value is random: nothing relates two calls.
#[verifier::external_body]
pub fn fresh_uuid() -> (r: String)
    ensures
        r@.len() == 36,
        plain_ascii(r@),
{
    uuid::Uuid::new_v4().to_string()
}

/// Relies on `chrono::Utc::now().to_rfc3339()`: the current time in RFC
/// 3339 form, such as `1996-12-19T16:39:57+00:00` — digits and date and
/// time punctuation only. The clock decides the value; every outcome is
/// admitted.
#[verifier::external_body]
pub fn now_rfc3339() -> (r: String)
    ensures
        plain_ascii(r@),
{
    chrono::Utc::now().to_rfc3339()
}

} // verus!
