use vstd::prelude::*;

use crate::calendar::datetime_seconds;
use crate::error::{CsvError, CsvFault};
use crate::numbers::{decimal_i64, is_float_literal, is_float_literal_str, parse_decimal_i64};
use crate::text::{
    ascii_lower_seq, same_text, to_ascii_lower, to_owned_text, trim, trim_str,
};

verus! {

/// The layout of the date-time fields: `YYYY-MM-DD HH:MM:SS`.
pub const TIMESTAMP_FORMAT: &'static str = "%Y-%m-%d %H:%M:%S";

/// What `chrono::NaiveDateTime::parse_from_str(text, format)` yields, read
/// as seconds since the Unix epoch with the date-time taken as UTC; `None`
/// where chrono refuses the text.
pub uninterp spec fn naive_utc_seconds(text: Seq<char>, format: Seq<char>) -> Option<i64>;

/// Calls `chrono::NaiveDateTime::parse_from_str(text, format)` and turns the
/// date-time it returns into seconds since the Unix epoch, reading it as UTC
/// (`and_utc().timestamp()`). The contract claims that the outcome is the
/// named function of the two arguments; and, with the format
/// `TIMESTAMP_FORMAT`, that a text of the exact shape `YYYY-MM-DD HH:MM:SS`
/// naming a real date and a time before 24:00:00 gives that date-time's
/// seconds since 1970-01-01 00:00:00 in the proleptic Gregorian calendar, as
/// chrono documents `%Y`, `%m`, `%d`, `%H`, `%M`, `%S` and `timestamp`.
/// Nothing is said of chrono's error, which is handed on.
#[verifier::external_body]
fn chrono_utc_seconds(text: &str, format: &str) -> (r: Result<i64, chrono::ParseError>)
    ensures
        r is Ok <==> naive_utc_seconds(text@, format@) is Some,
        r matches Ok(t) ==> naive_utc_seconds(text@, format@) == Some(t),
        format@ == TIMESTAMP_FORMAT@ ==> (datetime_seconds(text@) matches Some(secs) ==> r
            == Ok::<i64, chrono::ParseError>(secs as i64)),
{
    chrono::NaiveDateTime::parse_from_str(text, format).map(|dt| dt.and_utc().timestamp())
}

/// The outcome of reading a date-time field whose trimmed text is `t`.
pub open spec fn timestamp_outcome(t: Seq<char>) -> Result<i64, CsvFault> {
    match naive_utc_seconds(t, TIMESTAMP_FORMAT@) {
        Some(secs) => Ok(secs),
        None => Err(CsvFault::DateTimeParse(t)),
    }
}

/// Turns the outcome of chrono for the trimmed field `trimmed` into the
/// field's value, or into the error that names the field and carries
/// chrono's own error.
pub fn timestamp_from_parsed(trimmed: &str, parsed: Result<i64, chrono::ParseError>) -> (r:
    Result<i64, CsvError>)
    ensures
        parsed matches Ok(t) ==> r == Ok::<i64, CsvError>(t),
        parsed matches Err(pe) ==> (r matches Err(CsvError::DateTimeParse(t, p)) && t@ == trimmed@
            && p == pe),
{
    match parsed {
        Ok(t) => Ok(t),
        Err(e) => Err(CsvError::DateTimeParse(to_owned_text(trimmed), e)),
    }
}

/// Reads a `YYYY-MM-DD HH:MM:SS` field (UTC) as seconds since the Unix
/// epoch; white space around the field is ignored.
pub fn parse_timestamp(val: &str) -> (r: Result<i64, CsvError>)
    ensures
        match timestamp_outcome(trim(val@)) {
            Ok(t) => r == Ok::<i64, CsvError>(t),
            Err(f) => r matches Err(e) && e@ == f,
        },
        datetime_seconds(trim(val@)) matches Some(secs) ==> r == Ok::<i64, CsvError>(secs as i64),
{
    let trimmed = trim_str(val);
    let parsed = chrono_utc_seconds(trimmed, TIMESTAMP_FORMAT);
    timestamp_from_parsed(trimmed, parsed)
}

/// `true` exactly for the text `true` in any mix of cases, white space
/// around it ignored.
pub open spec fn bool_of(s: Seq<char>) -> bool {
    ascii_lower_seq(trim(s)) == "true"@
}

/// Reads a boolean field: `true` in any mix of cases is true, anything else
/// is false.
pub fn parse_bool(val: &str) -> (r: bool)
    ensures
        r == bool_of(val@),
{
    let lower = to_ascii_lower(trim_str(val));
    same_text(lower.as_str(), "true")
}

/// The words that the lenient reading takes for true, in lower case.
pub open spec fn is_true_word(w: Seq<char>) -> bool {
    w == "true"@ || w == "1"@ || w == "yes"@ || w == "y"@ || w == "t"@
}

/// The words that the lenient reading takes for false, in lower case.
pub open spec fn is_false_word(w: Seq<char>) -> bool {
    w == "false"@ || w == "0"@ || w == "no"@ || w == "n"@ || w == "f"@
}

/// The message for a word `w` (in lower case) that is no boolean.
pub open spec fn invalid_bool_message(w: Seq<char>) -> Seq<char> {
    "Valor booleano inválido: '"@ + w + "'. Se esperaba true/false, True/False, 1/0."@
}

/// The outcome of the lenient boolean reading of `s`.
pub open spec fn lenient_bool_of(s: Seq<char>) -> Result<bool, Seq<char>> {
    let w = ascii_lower_seq(trim(s));
    if is_true_word(w) {
        Ok(true)
    } else if is_false_word(w) {
        Ok(false)
    } else {
        Err(invalid_bool_message(w))
    }
}

fn is_one_of5(w: &str, a: &str, b: &str, c: &str, d: &str, e: &str) -> (r: bool)
    ensures
        r == (w@ == a@ || w@ == b@ || w@ == c@ || w@ == d@ || w@ == e@),
{
    same_text(w, a) || same_text(w, b) || same_text(w, c) || same_text(w, d) || same_text(w, e)
}

/// Reads a boolean leniently: after trimming and lower-casing, `true`, `1`,
/// `yes`, `y`, `t` are true and `false`, `0`, `no`, `n`, `f` are false;
/// anything else is refused with a message that quotes it.
pub fn parse_bool_lenient(val: &str) -> (r: Result<bool, String>)
    ensures
        match lenient_bool_of(val@) {
            Ok(b) => r == Ok::<bool, String>(b),
            Err(m) => r matches Err(msg) && msg@ == m,
        },
{
    let lower = to_ascii_lower(trim_str(val));
    if is_one_of5(lower.as_str(), "true", "1", "yes", "y", "t") {
        Ok(true)
    } else if is_one_of5(lower.as_str(), "false", "0", "no", "n", "f") {
        Ok(false)
    } else {
        let mut msg = String::from_str("Valor booleano inválido: '");
        msg.append(lower.as_str());
        msg.append("'. Se esperaba true/false, True/False, 1/0.");
        Err(msg)
    }
}

/// The value of an optional integer field `s`: the decimal integer its
/// trimmed text spells, or `None` where that text is empty or no integer
/// that fits in 64 bits.
pub open spec fn int_field_of(s: Seq<char>) -> Option<i64> {
    match decimal_i64(trim(s)) {
        Ok(v) => Some(v),
        Err(_) => None,
    }
}

/// Reads an optional integer field: a decimal integer (white space around
/// it ignored) is its value; an empty field, or one that is no integer, has
/// no value. Reading never fails.
pub fn parse_int(val: &str) -> (r: Result<Option<i64>, CsvError>)
    ensures
        r == Ok::<Option<i64>, CsvError>(int_field_of(val@)),
{
    let trimmed = trim_str(val);
    match parse_decimal_i64(trimmed) {
        Ok(v) => Ok(Some(v)),
        Err(_) => Ok(None),
    }
}

/// The value of an optional floating-point field `s`, kept as text: its
/// trimmed text where that is a floating-point literal, or `None` where it
/// is empty or no number.
pub open spec fn float_field_of(s: Seq<char>) -> Option<Seq<char>> {
    if is_float_literal(trim(s)) {
        Some(trim(s))
    } else {
        None
    }
}

/// Reads an optional floating-point field, keeping the literal as text: a
/// floating-point literal (white space around it ignored) is kept; an empty
/// field, or one that is no number, has no value. Reading never fails.
pub fn parse_float_text(val: &str) -> (r: Result<Option<String>, CsvError>)
    ensures
        r matches Ok(v) && v.deep_view() == float_field_of(val@),
{
    let trimmed = trim_str(val);
    if is_float_literal_str(trimmed) {
        Ok(Some(to_owned_text(trimmed)))
    } else {
        Ok(None)
    }
}

/// The value of an optional text field `s`: its trimmed text, or `None`
/// where that is empty.
pub open spec fn opt_string_of(s: Seq<char>) -> Option<Seq<char>> {
    if trim(s).len() == 0 {
        None
    } else {
        Some(trim(s))
    }
}

/// Reads an optional text field: the trimmed text, or `None` where it is
/// empty.
pub fn parse_opt_string(val: &str) -> (r: Option<String>)
    ensures
        match opt_string_of(val@) {
            None => r is None,
            Some(t) => r matches Some(x) && x@ == t,
        },
{
    let trimmed = trim_str(val);
    if trimmed.unicode_len() == 0 {
        None
    } else {
        Some(to_owned_text(trimmed))
    }
}

} // verus!
