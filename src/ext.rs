//! Calls into outside crates, each behind a small trusted wrapper.
use vstd::prelude::*;

verus! {

/// The RFC 3339 text that chrono writes for an instant given in
/// milliseconds since the Unix epoch.
pub uninterp spec fn rfc3339_text(millis: int) -> Seq<char>;

/// Whether serde_json accepts the text as one JSON value.
pub uninterp spec fn is_json_text(s: Seq<char>) -> bool;

/// The earliest and latest instants, in milliseconds since the Unix epoch,
/// that are promised to be written: chrono covers about 262,000 years on
/// either side of the common era.
pub open spec fn writable_millis(millis: int) -> bool {
    -8_000_000_000_000_000 <= millis <= 8_000_000_000_000_000
}

/// Instants, in milliseconds since the Unix epoch, beyond chrono's range on
/// either side: before the year -262143 or after the year 262142.
pub open spec fn beyond_chrono_millis(millis: int) -> bool {
    millis < -8_400_000_000_000_000 || millis > 8_300_000_000_000_000
}

/// The lower-case hexadecimal digit of a value below 16.
pub open spec fn hex_digit(d: int) -> char {
    "0123456789abcdef"@[d]
}

/// How serde_json writes one character inside a JSON string: quote and
/// backslash escaped, the short escapes for backspace, form feed, line feed,
/// carriage return and tab, other control characters as `\u00XX`, and every
/// other character as it is.
pub open spec fn json_escape_char(c: char) -> Seq<char> {
    if c == '"' {
        seq!['\\', '"']
    } else if c == '\\' {
        seq!['\\', '\\']
    } else if c == '\x08' {
        seq!['\\', 'b']
    } else if c == '\x0c' {
        seq!['\\', 'f']
    } else if c == '\n' {
        seq!['\\', 'n']
    } else if c == '\r' {
        seq!['\\', 'r']
    } else if c == '\t' {
        seq!['\\', 't']
    } else if (c as u32) < 0x20 {
        seq!['\\', 'u', '0', '0', hex_digit(((c as u32) / 16) as int), hex_digit(((c as u32) % 16) as int)]
    } else {
        seq![c]
    }
}

/// The characters of a text escaped for a JSON string, one after another.
pub open spec fn json_escaped(s: Seq<char>) -> Seq<char>
    decreases s.len(),
{
    if s.len() == 0 {
        Seq::empty()
    } else {
        json_escaped(s.drop_last()) + json_escape_char(s.last())
    }
}

/// The JSON string literal for a text: its escaped characters in quotes.
pub open spec fn json_string_literal(s: Seq<char>) -> Seq<char> {
    seq!['"'] + json_escaped(s) + seq!['"']
}

/// Relies on axum::http::StatusCode::from_u16, which accepts exactly the
/// codes from 100 to 999.
#[verifier::external_body]
pub(crate) fn status_code_valid(code: u16) -> (r: bool)
    ensures
        r == (100 <= code && code <= 999),
{
    axum::http::StatusCode::from_u16(code).is_ok()
}

/// Relies on std::time::SystemTime::now, converted by chrono's
/// `From<SystemTime>` for `DateTime<Utc>` and read by timestamp_millis: the
/// current time in milliseconds since the Unix epoch. A clock before 1970
/// converts without fault. Nothing is known of its value.
#[verifier::external_body]
pub(crate) fn now_millis() -> (r: i64) {
    chrono::DateTime::<chrono::Utc>::from(std::time::SystemTime::now()).timestamp_millis()
}

/// Relies on chrono::DateTime::from_timestamp_millis and to_rfc3339: the
/// instant as RFC 3339 text, or none where it lies outside chrono's range
/// (years -262143 to 262142), which holds every writable instant and none
/// of those beyond it.
#[verifier::external_body]
pub(crate) fn rfc3339_of_millis(millis: i64) -> (r: Option<String>)
    ensures
        r matches Some(t) ==> t@ == rfc3339_text(millis as int),
        writable_millis(millis as int) ==> r is Some,
        beyond_chrono_millis(millis as int) ==> r is None,
{
    chrono::DateTime::from_timestamp_millis(millis).map(|t| t.to_rfc3339())
}

/// Relies on uuid::Uuid::new_v4 and its hyphenated text form: a random
/// identifier. Nothing is known of its value.
#[verifier::external_body]
pub(crate) fn new_bin_id() -> (r: String) {
    uuid::Uuid::new_v4().to_string()
}

/// Relies on serde_json::from_str into a serde_json::Value: whether the
/// text parses as JSON.
#[verifier::external_body]
pub(crate) fn parses_as_json(s: &str) -> (r: bool)
    ensures
        r == is_json_text(s@),
{
    serde_json::from_str::<serde_json::Value>(s).is_ok()
}

/// Relies on serde_json::to_string on a str, which writes the text in
/// quotes with each character escaped by serde_json's escape table (see
/// `json_escape_char`). Serialising a str into memory does not fail.
#[verifier::external_body]
pub(crate) fn json_quote(s: &str) -> (r: String)
    ensures
        r@ == json_string_literal(s@),
{
    match serde_json::to_string(s) {
        Ok(t) => t,
        Err(_) => String::new(),
    }
}

} // verus!
