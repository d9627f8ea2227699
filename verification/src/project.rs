use vstd::prelude::*;
use crate::dates::date_shaped;
use crate::dates::lex_lt;
use crate::dates::DAY_MAX;
use crate::dates::DAY_MIN;
use crate::engine::OCCURRENCE_MAX;
use crate::engine::OCCURRENCE_MIN;
use chrono::TimeZone;

verus! {

#[verifier::external_type_specification]
#[verifier::external_body]
pub struct ExNaiveDate(chrono::NaiveDate);

/// Which calendar day a date value is, as days since 1970-01-01. The
/// projector never looks inside a date; it only carries one from the
/// calendar library's truncation to its formatter, and this name lets the
/// contracts say that what is formatted is exactly what was truncated.
pub uninterp spec fn day_of(d: chrono::NaiveDate) -> int;

/// The rendering of a calendar day, given as days since 1970-01-01.
pub uninterp spec fn date_repr(day: int) -> Seq<char>;

/// The date string that projecting an instant produces: the rendering of its
/// UTC calendar day.
pub open spec fn projected_date(t: int) -> Seq<char> {
    date_repr(t / 86_400)
}

/// Relies on `chrono::TimeZone::timestamp_opt` in the fixed UTC zone
/// (documented to return a single value for any in-range second count; the
/// admitted range lies far inside the representable one) and on
/// `chrono::DateTime::date_naive`: in UTC, the calendar day of an instant is
/// the floor of the instant divided by the seconds of one day.
#[verifier::external_body]
fn date_of_timestamp(t: i64) -> (r: chrono::NaiveDate)
    requires
        OCCURRENCE_MIN <= t <= OCCURRENCE_MAX,
    ensures
        day_of(r) == (t as int) / 86_400,
{
    rrule::Tz::UTC.timestamp_opt(t, 0).unwrap().date_naive()
}

/// Relies on `<chrono::NaiveDate as std::fmt::Display>`, through
/// `std::string::ToString`: a date is rendered from its calendar day alone;
/// for years 0000 through 9999 the rendering is `YYYY-MM-DD` with the year
/// zero-padded to four digits, which makes it ten characters long and, being
/// of fixed width, order-preserving under lexicographic comparison.
#[verifier::external_body]
fn naive_date_string(d: &chrono::NaiveDate) -> (r: String)
    ensures
        r@ == date_repr(day_of(*d)),
        DAY_MIN <= day_of(*d) <= DAY_MAX ==> date_shaped(r@),
        forall|d2: int|
            DAY_MIN <= day_of(*d) && day_of(*d) < d2 <= DAY_MAX ==> lex_lt(
                r@,
                #[trigger] date_repr(d2),
            ),
{
    d.to_string()
}

/// Projects one occurrence instant to its calendar-date string in the fixed
/// zone: total for every instant the engine can yield, and deterministic.
pub fn project_date(t: i64) -> (r: String)
    requires
        OCCURRENCE_MIN <= t <= OCCURRENCE_MAX,
    ensures
        r@ == projected_date(t as int),
        DAY_MIN <= (t as int) / 86_400 <= DAY_MAX ==> date_shaped(r@),
        forall|d2: int|
            DAY_MIN <= (t as int) / 86_400 && (t as int) / 86_400 < d2 <= DAY_MAX ==> lex_lt(
                r@,
                #[trigger] date_repr(d2),
            ),
{
    let d = date_of_timestamp(t);
    naive_date_string(&d)
}

/// Projects a whole occurrence list, in order.
pub fn project_all(ts: &Vec<i64>) -> (r: Vec<String>)
    requires
        forall|i: int| 0 <= i < ts@.len() ==> OCCURRENCE_MIN <= #[trigger] ts@[i] <= OCCURRENCE_MAX,
    ensures
        r@.len() == ts@.len(),
        forall|i: int| 0 <= i < r@.len() ==> #[trigger] r@[i]@ == projected_date(ts@[i] as int),
        r.deep_view() == ts@.map_values(|t: i64| projected_date(t as int)),
        forall|i: int|
            0 <= i < r@.len() && DAY_MIN <= (ts@[i] as int) / 86_400 <= DAY_MAX ==> date_shaped(
                #[trigger] r@[i]@,
            ),
        forall|i: int, d2: int|
            0 <= i < r@.len() && DAY_MIN <= (ts@[i] as int) / 86_400 && (ts@[i] as int) / 86_400
                < d2 <= DAY_MAX ==> lex_lt(#[trigger] r@[i]@, #[trigger] date_repr(d2)),
{
    let mut out: Vec<String> = Vec::new();
    let mut idx: usize = 0;
    while idx < ts.len()
        invariant
            idx <= ts@.len(),
            out@.len() == idx,
            forall|i: int| 0 <= i < ts@.len() ==> OCCURRENCE_MIN <= #[trigger] ts@[i]
                <= OCCURRENCE_MAX,
            forall|i: int| 0 <= i < idx ==> #[trigger] out@[i]@ == projected_date(ts@[i] as int),
            forall|i: int|
                0 <= i < idx && DAY_MIN <= (ts@[i] as int) / 86_400 <= DAY_MAX ==> date_shaped(
                    #[trigger] out@[i]@,
                ),
            forall|i: int, d2: int|
                0 <= i < idx && DAY_MIN <= (ts@[i] as int) / 86_400 && (ts@[i] as int) / 86_400 < d2
                    <= DAY_MAX ==> lex_lt(#[trigger] out@[i]@, #[trigger] date_repr(d2)),
        decreases ts@.len() - idx,
    {
        let t = ts[idx];
        out.push(project_date(t));
        idx += 1;
    }
    proof {
        assert(out.deep_view() =~~= ts@.map_values(|t: i64| projected_date(t as int)));
    }
    out
}

} // verus!
