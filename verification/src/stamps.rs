//! Fresh identifiers and time stamps, which come from the `uuid` and
//! `chrono` crates.
use vstd::prelude::*;

use crate::text::{is_blank, is_safe_id_char, lemma_trimmed_unchanged, safe_id};

verus! {

pub open spec fn is_lower_hex_digit(c: char) -> bool {
    ('0' <= c && c <= '9') || ('a' <= c && c <= 'f')
}

/// A UUID in uuid's "simple" form: 32 lower-case hexadecimal digits.
pub open spec fn uuid_simple_text(s: Seq<char>) -> bool {
    s.len() == 32 && forall|i: int| 0 <= i < s.len() ==> #[trigger] is_lower_hex_digit(s[i])
}

pub open spec fn is_digit(c: char) -> bool {
    '0' <= c && c <= '9'
}

/// Every character of `s` from index `i` on is a decimal digit.
pub open spec fn digits_from(s: Seq<char>, i: int) -> bool {
    forall|k: int| i <= k < s.len() ==> #[trigger] is_digit(s[k])
}

/// The value of the two digits of `s` at `i` and `i + 1`.
pub open spec fn two_digit_value(s: Seq<char>, i: int) -> int {
    (s[i] as int - '0' as int) * 10 + (s[i + 1] as int - '0' as int)
}

/// The year as chrono writes it: four digits, or, past the year 9999, a
/// `+` sign followed by five digits or more.
pub open spec fn rfc3339_year(y: Seq<char>) -> bool {
    ||| y.len() == 4 && digits_from(y, 0)
    ||| y.len() >= 6 && y[0] == '+' && digits_from(y, 1)
}

/// `-MM-DDTHH:MM:SS`, with a month from 1 to 12, a day from 1 to 31, an hour
/// below 24 and minutes and seconds below 60.
pub open spec fn rfc3339_date_time(c: Seq<char>) -> bool {
    &&& c.len() == 15
    &&& c[0] == '-' && c[3] == '-' && c[6] == 'T' && c[9] == ':' && c[12] == ':'
    &&& is_digit(c[1]) && is_digit(c[2]) && is_digit(c[4]) && is_digit(c[5])
    &&& is_digit(c[7]) && is_digit(c[8]) && is_digit(c[10]) && is_digit(c[11])
    &&& is_digit(c[13]) && is_digit(c[14])
    &&& 1 <= two_digit_value(c, 1) <= 12
    &&& 1 <= two_digit_value(c, 4) <= 31
    &&& two_digit_value(c, 7) <= 23
    &&& two_digit_value(c, 10) <= 59
    &&& two_digit_value(c, 13) <= 59
}

/// The fraction of a second as chrono writes it: nothing, or a point
/// followed by three, six or nine digits.
pub open spec fn rfc3339_fraction(f: Seq<char>) -> bool {
    ||| f.len() == 0
    ||| (f.len() == 4 || f.len() == 7 || f.len() == 10) && f[0] == '.' && digits_from(f, 1)
}

/// A time stamp as chrono writes a UTC time in RFC 3339 form:
/// `YYYY-MM-DDTHH:MM:SS`, an optional fraction of a second, and the offset
/// `+00:00`.
pub open spec fn utc_rfc3339_text(s: Seq<char>) -> bool {
    exists|k: int|
        0 <= k && k + 21 <= s.len() && #[trigger] rfc3339_year(s.subrange(0, k))
            && rfc3339_date_time(s.subrange(k, k + 15)) && rfc3339_fraction(
            s.subrange(k + 15, s.len() - 6),
        ) && s.subrange(s.len() - 6, s.len() as int) == "+00:00"@
}

/// `uuid::Uuid::new_v4().simple().to_string()`. The UUID is random; uuid
/// writes the simple form as 32 lower-case hexadecimal digits, and that is
/// all that is claimed of the result.
#[verifier::external_body]
pub(crate) fn new_record_id() -> (r: String)
    ensures
        uuid_simple_text(r@),
{
    uuid::Uuid::new_v4().simple().to_string()
}

/// `chrono::Utc::now().to_rfc3339()`. The time is the machine's, so only the
/// shape of the text is claimed: chrono writes the year, month, day, hours,
/// minutes and seconds, the fraction of a second when it is not zero, and
/// the UTC offset as `+00:00`.
#[verifier::external_body]
pub(crate) fn now_string() -> (r: String)
    ensures
        utc_rfc3339_text(r@),
{
    chrono::Utc::now().to_rfc3339()
}

/// Every freshly made identifier can name an account directory, and is not
/// blank.
pub proof fn lemma_uuid_text_is_safe_id(s: Seq<char>)
    requires
        uuid_simple_text(s),
    ensures
        safe_id(s),
        !is_blank(s),
{
    assert forall|i: int| 0 <= i < s.len() implies #[trigger] is_safe_id_char(s[i]) by {
        assert(is_lower_hex_digit(s[i]));
    }
    assert(is_lower_hex_digit(s[0]) && is_lower_hex_digit(s.last()));
    lemma_trimmed_unchanged(s);
}

} // verus!
