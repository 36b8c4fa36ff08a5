//! The calls this library makes into outside code, each with the contract
//! it is trusted to meet.
use vstd::prelude::*;

verus! {

/// The whole milliseconds from the instant that the RFC 3339 timestamp
/// `start` names to the one `end` names, or `None` when either does not
/// parse; a function of the two strings alone.
pub uninterp spec fn rfc3339_elapsed_millis(start: Seq<char>, end: Seq<char>) -> Option<i64>;

/// chrono: parses both strings with `DateTime::parse_from_rfc3339` and, when
/// both parse, gives `end.signed_duration_since(start).num_milliseconds()`.
/// The contract only names this result: it claims that the same two strings
/// always give the same answer, nothing of its value.
#[verifier::external_body]
pub(crate) fn elapsed_millis(start: &str, end: &str) -> (r: Option<i64>)
    ensures
        r == rfc3339_elapsed_millis(start@, end@),
{
    match (chrono::DateTime::parse_from_rfc3339(start), chrono::DateTime::parse_from_rfc3339(end)) {
        (Ok(a), Ok(b)) => Some(b.signed_duration_since(a).num_milliseconds()),
        _ => None,
    }
}

/// The character of the standard base64 alphabet (RFC 4648) for a value
/// below 64.
pub open spec fn base64_char(v: int) -> char {
    if v < 26 {
        ('A' as int + v) as char
    } else if v < 52 {
        ('a' as int + (v - 26)) as char
    } else if v < 62 {
        ('0' as int + (v - 52)) as char
    } else if v == 62 {
        '+'
    } else {
        '/'
    }
}

/// The standard base64 encoding (RFC 4648, with `=` padding) of a byte
/// sequence: each group of three bytes becomes four characters.
pub open spec fn base64_encode(b: Seq<u8>) -> Seq<char>
    decreases b.len(),
{
    if b.len() == 0 {
        seq![]
    } else {
        let x = b[0] as int;
        let y = if b.len() > 1 {
            b[1] as int
        } else {
            0
        };
        let z = if b.len() > 2 {
            b[2] as int
        } else {
            0
        };
        if b.len() == 1 {
            seq![base64_char(x / 4), base64_char((x % 4) * 16), '=', '=']
        } else if b.len() == 2 {
            seq![base64_char(x / 4), base64_char((x % 4) * 16 + y / 16), base64_char((y % 16) * 4), '=']
        } else {
            seq![
                base64_char(x / 4),
                base64_char((x % 4) * 16 + y / 16),
                base64_char((y % 16) * 4 + z / 64),
                base64_char(z % 64),
            ] + base64_encode(b.skip(3))
        }
    }
}

/// base64: `general_purpose::STANDARD.encode`, the RFC 4648 encoding with
/// the standard alphabet and padding, which the contract states in full.
#[verifier::external_body]
pub(crate) fn encode_base64(bytes: &[u8]) -> (r: String)
    ensures
        r@ == base64_encode(bytes@),
{
    base64::Engine::encode(&base64::engine::general_purpose::STANDARD, bytes)
}

/// The bytes that the standard base64 engine decodes from a text, or `None`
/// when it refuses the text; a function of the text alone.
pub uninterp spec fn base64_decoded(text: Seq<char>) -> Option<Seq<u8>>;

/// base64: `general_purpose::STANDARD.decode`. The contract names the
/// result and states that the engine decodes its own encoding of any bytes
/// back to those bytes; which other texts it accepts (alphabet, padding,
/// trailing bits) is left unstated.
#[verifier::external_body]
pub(crate) fn decode_base64(text: &str) -> (r: Option<Vec<u8>>)
    ensures
        match r {
            Some(v) => base64_decoded(text@) == Some(v@),
            None => base64_decoded(text@) is None,
        },
        r is Some ==> forall|b: Seq<u8>| #[trigger] base64_encode(b) == text@ ==> r->0@ == b,
        (exists|b: Seq<u8>| #[trigger] base64_encode(b) == text@) ==> r is Some,
{
    match base64::Engine::decode(&base64::engine::general_purpose::STANDARD, text) {
        Ok(bytes) => Some(bytes),
        Err(_) => None,
    }
}

/// The part of `path` after the leading components that make up `base`, or
/// `None` when `base` is not a prefix of `path` component by component.
pub uninterp spec fn path_strip_prefix(path: Seq<char>, base: Seq<char>) -> Option<Seq<char>>;

/// std: `Path::strip_prefix`, with the remainder turned back into a string.
/// The contract names the result; the component-wise comparison it makes is
/// left unstated.
#[verifier::external_body]
pub(crate) fn strip_path_prefix(path: &str, base: &str) -> (r: Option<String>)
    ensures
        match r {
            Some(s) => path_strip_prefix(path@, base@) == Some(s@),
            None => path_strip_prefix(path@, base@) is None,
        },
{
    match std::path::Path::new(path).strip_prefix(base) {
        Ok(rest) => Some(rest.to_string_lossy().to_string()),
        Err(_) => None,
    }
}

/// The extension of the last component of a path, if it has one.
pub uninterp spec fn path_extension(path: Seq<char>) -> Option<Seq<char>>;

/// std: `Path::extension`, as a string. The contract names the result; how
/// the last component and its final dot are found is left unstated.
#[verifier::external_body]
pub(crate) fn extension_of(path: &str) -> (r: Option<String>)
    ensures
        match r {
            Some(s) => path_extension(path@) == Some(s@),
            None => path_extension(path@) is None,
        },
{
    std::path::Path::new(path).extension().map(|e| e.to_string_lossy().to_string())
}

/// The last component of a path, if it has one.
pub uninterp spec fn path_file_name(path: Seq<char>) -> Option<Seq<char>>;

/// std: `Path::file_name`, as a string. The contract names the result.
#[verifier::external_body]
pub(crate) fn file_name_of(path: &str) -> (r: Option<String>)
    ensures
        match r {
            Some(s) => path_file_name(path@) == Some(s@),
            None => path_file_name(path@) is None,
        },
{
    std::path::Path::new(path).file_name().map(|e| e.to_string_lossy().to_string())
}

/// The text of a byte sequence read as UTF-8, invalid sequences replaced by
/// U+FFFD; a function of the bytes alone.
pub uninterp spec fn utf8_lossy(bytes: Seq<u8>) -> Seq<char>;

/// std: `String::from_utf8_lossy`. The contract names the result, and
/// states that ASCII bytes, which are valid UTF-8, become the characters
/// with the same codes.
#[verifier::external_body]
pub(crate) fn lossy_text(bytes: &[u8]) -> (r: String)
    ensures
        r@ == utf8_lossy(bytes@),
        (forall|i: int| 0 <= i < bytes@.len() ==> #[trigger] bytes@[i] < 128) ==> r@
            == bytes@.map_values(|b: u8| b as char),
{
    String::from_utf8_lossy(bytes).to_string()
}

/// The Unicode lower-case form of a text; a function of the text alone.
pub uninterp spec fn lowercase(s: Seq<char>) -> Seq<char>;

/// std: `str::to_lowercase`. The contract names the result and states that
/// an ASCII text is lowered letter by letter as `to_ascii_lowercase` does;
/// the rest of the Unicode case mapping is left unstated.
#[verifier::external_body]
pub(crate) fn to_lowercase(s: &str) -> (r: String)
    ensures
        r@ == lowercase(s@),
        (forall|i: int| 0 <= i < s@.len() ==> (#[trigger] s@[i] as u32) < 128) ==> r@
            == s@.map_values(|c: char| crate::text::ascii_lower(c)),
{
    s.to_lowercase()
}

/// A version 4 UUID in its hyphenated text form: 36 characters, lower-case
/// hexadecimal digits with hyphens at positions 8, 13, 18 and 23, and the
/// version digit `4` at position 14.
pub open spec fn uuid_shaped(s: Seq<char>) -> bool {
    &&& s.len() == 36
    &&& s[14] == '4'
    &&& forall|i: int|
        0 <= i < 36 ==> (if i == 8 || i == 13 || i == 18 || i == 23 {
            #[trigger] s[i] == '-'
        } else {
            ('0' <= s[i] <= '9') || ('a' <= s[i] <= 'f')
        })
}

/// uuid: `Uuid::new_v4()`, written with `to_string`, which gives the
/// lower-case hyphenated form. Which digits come is chance; the contract
/// states the form.
#[verifier::external_body]
pub(crate) fn new_uuid() -> (r: String)
    ensures
        uuid_shaped(r@),
{
    uuid::Uuid::new_v4().to_string()
}

/// A text that RFC 3339 parsing accepts: the time from it to itself is
/// zero milliseconds.
pub open spec fn is_rfc3339(s: Seq<char>) -> bool {
    rfc3339_elapsed_millis(s, s) == Some(0i64)
}

/// chrono: `Utc::now()`, written with `to_rfc3339`. Which instant it names
/// depends on the clock; the contract states only that the text is an RFC
/// 3339 time, which `DateTime::parse_from_rfc3339` reads back.
#[verifier::external_body]
pub(crate) fn utc_now_rfc3339() -> (r: String)
    ensures
        is_rfc3339(r@),
{
    chrono::Utc::now().to_rfc3339()
}

/// A decimal digit.
pub open spec fn is_digit(c: char) -> bool {
    '0' <= c <= '9'
}

/// A time written as `%b %d %H:%M`: an English month abbreviation, a
/// space, two digits of day, a space, then two digits of hour, a colon and
/// two of minute.
pub open spec fn local_label_shaped(s: Seq<char>) -> bool {
    let m = s.take(3);
    &&& s.len() == 12
    &&& (m == "Jan"@ || m == "Feb"@ || m == "Mar"@ || m == "Apr"@ || m == "May"@ || m == "Jun"@
        || m == "Jul"@ || m == "Aug"@ || m == "Sep"@ || m == "Oct"@ || m == "Nov"@ || m == "Dec"@)
    &&& s[3] == ' ' && is_digit(s[4]) && is_digit(s[5]) && s[6] == ' '
    &&& is_digit(s[7]) && is_digit(s[8]) && s[9] == ':' && is_digit(s[10]) && is_digit(s[11])
}

/// A time written as `%Y-%m-%d-%H%M%S`: a year of at least four digits
/// (with a sign before it outside the years 0 to 9999), then `-`, two
/// digits of month, `-`, two of day, `-`, and six of hour, minute and
/// second.
pub open spec fn local_stamp_shaped(s: Seq<char>) -> bool {
    let n = s.len() as int;
    &&& n >= 17
    &&& forall|i: int|
        0 <= i < n - 13 ==> (is_digit(#[trigger] s[i]) || (i == 0 && (s[i] == '+' || s[i] == '-')))
    &&& s[n - 13] == '-' && s[n - 10] == '-' && s[n - 7] == '-'
    &&& forall|i: int|
        n - 13 < i < n && i != n - 10 && i != n - 7 ==> is_digit(#[trigger] s[i])
}

/// chrono: `Local::now()`, written with `format` twice, as `%b %d %H:%M`
/// and as `%Y-%m-%d-%H%M%S`, both of the same instant. Which instant, and
/// in which time zone, depends on the machine; the contract states only the
/// form of each text.
#[verifier::external_body]
pub(crate) fn local_now_label_and_stamp() -> (r: (String, String))
    ensures
        local_label_shaped(r.0@),
        local_stamp_shaped(r.1@),
{
    let now = chrono::Local::now();
    (now.format("%b %d %H:%M").to_string(), now.format("%Y-%m-%d-%H%M%S").to_string())
}

} // verus!
