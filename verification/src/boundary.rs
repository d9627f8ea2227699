use vstd::prelude::*;
use vstd::string::StringExecFns;
use crate::dates::date_shaped;
use crate::dates::is_date_shaped;

verus! {

/// Lowest boundary instant the evaluator accepts, in seconds since the Unix
/// epoch: the first second a four-digit year can name (0000-01-01 00:00:00
/// UTC). Together with the shape check below this keeps all boundary
/// arithmetic far inside the range the calendar library can represent.
pub const BOUNDARY_MIN: i64 = -62_167_219_200;

/// Highest boundary instant the evaluator accepts, in seconds since the Unix
/// epoch: the last second a four-digit year can name (9999-12-31 23:59:59
/// UTC).
pub const BOUNDARY_MAX: i64 = 253_402_300_799;

/// What parsing a full instant string (date, anchor time and zone offset)
/// yields: the instant as seconds since the Unix epoch, or the parse
/// diagnostic. The outcome depends on the characters of the string alone.
pub uninterp spec fn parse_outcome(s: Seq<char>) -> Result<int, Seq<char>>;

/// Relies on `chrono::DateTime::parse_from_str` with the ISO 8601 format
/// (`"%+"`), and on `chrono::DateTime::timestamp`: the result is a function
/// of the input characters alone, and the diagnostic is the parse error's
/// display text.
#[verifier::external_body]
fn parse_instant(s: &str) -> (r: Result<i64, String>)
    ensures
        match r {
            Ok(t) => parse_outcome(s@) == Ok::<int, Seq<char>>(t as int),
            Err(d) => parse_outcome(s@) == Err::<int, Seq<char>>(d@),
        },
{
    match chrono::DateTime::parse_from_str(s, "%+") {
        Ok(dt) => Ok(dt.timestamp()),
        Err(e) => Err(e.to_string()),
    }
}

/// The anchor suffix appended to a calendar-date string: a fixed time of day
/// just past midnight, in the evaluator's fixed zone.
pub open spec fn anchored(s: Seq<char>) -> Seq<char> {
    s + "T00:00:01+00:00"@
}

/// The diagnostic for a boundary string that is not a `YYYY-MM-DD` date.
pub open spec fn invalid_characters_message() -> Seq<char> {
    "input contains invalid characters"@
}

/// The diagnostic for an instant that parsed but lies outside the supported
/// range.
pub open spec fn out_of_range_message() -> Seq<char> {
    "input is out of range"@
}

/// The full outcome of resolving one boundary date string: reject anything
/// that is not shaped `YYYY-MM-DD`, anchor the date, parse it, and reject
/// instants outside the supported range.
pub open spec fn boundary_outcome(s: Seq<char>) -> Result<int, Seq<char>> {
    if !date_shaped(s) {
        Err(invalid_characters_message())
    } else {
        match parse_outcome(anchored(s)) {
            Ok(t) => if BOUNDARY_MIN <= t && t <= BOUNDARY_MAX {
                Ok(t)
            } else {
                Err(out_of_range_message())
            },
            Err(d) => Err(d),
        }
    }
}

/// Resolves a caller-supplied calendar-date string into a boundary instant at
/// the fixed anchor time of day, or reports why it could not.
pub fn resolve_boundary(date_str: &str) -> (r: Result<i64, String>)
    ensures
        r is Ok <==> boundary_outcome(date_str@) is Ok,
        r matches Ok(t) ==> boundary_outcome(date_str@) == Ok::<int, Seq<char>>(t as int),
        r matches Ok(t) ==> BOUNDARY_MIN <= t && t <= BOUNDARY_MAX,
        r matches Err(d) ==> boundary_outcome(date_str@) == Err::<int, Seq<char>>(d@),
{
    if !is_date_shaped(date_str) {
        return Err(String::from_str("input contains invalid characters"));
    }
    let full = String::from_str(date_str).concat("T00:00:01+00:00");
    match parse_instant(full.as_str()) {
        Ok(t) => {
            if BOUNDARY_MIN <= t && t <= BOUNDARY_MAX {
                Ok(t)
            } else {
                Err(String::from_str("input is out of range"))
            }
        },
        Err(d) => Err(d),
    }
}

} // verus!
