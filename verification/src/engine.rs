use vstd::prelude::*;
use crate::boundary::BOUNDARY_MAX;
use crate::boundary::BOUNDARY_MIN;
use crate::rule_text::zone_fixed;
use chrono::TimeZone;

verus! {

#[verifier::external_type_specification]
#[verifier::external_body]
pub struct ExRRuleSet(rrule::RRuleSet);

/// Whether the recurrence sequence engine accepts this start+recurrence text
/// block. On a zone-fixed block (see `zone_fixed`) acceptance depends on the
/// characters of the block alone; the contracts below speak of it only
/// there.
pub uninterp spec fn rule_parses(s: Seq<char>) -> bool;

/// Ties an engine rule set to what it was built from: the text block it was
/// parsed out of, and the lower and upper window bounds set on it so far,
/// each an instant in seconds since the Unix epoch. The same set value may be
/// reachable from more than one text block, so this is a relation, not a
/// projection; everything the contracts conclude from it holds either way.
pub uninterp spec fn rule_set_models(
    rs: rrule::RRuleSet,
    rule: Seq<char>,
    lower: Option<int>,
    upper: Option<int>,
) -> bool;

/// The occurrence instants, in seconds since the Unix epoch, that the engine
/// yields for a zone-fixed rule text block under a window: at most `limit`
/// of them, each inside the window's bounds, in chronological order. On a
/// zone-fixed block the sequence is a function of the rule text, the bounds
/// and the limit alone.
pub uninterp spec fn engine_dates(
    rule: Seq<char>,
    lower: Option<int>,
    upper: Option<int>,
    limit: int,
) -> Seq<int>;

/// Lowest instant an engine occurrence can have (0000-01-01 00:00:00 UTC):
/// the engine's grammar admits four-digit years only, so every start instant
/// and every explicit date lies at or after the year 0000, and generated
/// occurrences never precede the start instant.
pub const OCCURRENCE_MIN: i64 = -62_167_219_200;

/// Highest instant an engine occurrence can have: the engine caps its
/// iteration at the year 10,000, so no occurrence lies beyond the year 10,002
/// (a generated day may spill just past the capped year).
pub const OCCURRENCE_MAX: i64 = 400_000_000_000;

/// Non-decreasing chronological order on an instant sequence.
pub open spec fn chronological(ts: Seq<int>) -> bool {
    forall|i: int, j: int| 0 <= i <= j < ts.len() ==> #[trigger] ts[i] <= #[trigger] ts[j]
}

/// The wider window's occurrence sequence is chronologically ordered and
/// extends the given one: what a narrower upper bound yielded stands
/// unchanged at the front of what a wider one yields.
pub open spec fn ordered_extension(out: Seq<int>, wider: Seq<int>) -> bool {
    out.is_prefix_of(wider) && chronological(wider)
}

/// Relies on `<rrule::RRuleSet as std::str::FromStr>::from_str`: on a
/// zone-fixed block it parses the text deterministically (no instant is
/// resolved in the machine's local zone), and a fresh set carries no window
/// bound on either side.
#[verifier::external_body]
pub(crate) fn parse_rule_set(s: &str) -> (r: Result<rrule::RRuleSet, ()>)
    requires
        zone_fixed(s@),
    ensures
        match r {
            Ok(rs) => rule_parses(s@) && rule_set_models(rs, s@, None::<int>, None::<int>),
            Err(_) => !rule_parses(s@),
        },
{
    match s.parse::<rrule::RRuleSet>() {
        Ok(rs) => Ok(rs),
        Err(_) => Err(()),
    }
}

/// Relies on `rrule::RRuleSet::after`, which only records the lower window
/// bound, and on `chrono::TimeZone::timestamp_opt`, which is documented to
/// return a single value for any in-range second count; the admitted range
/// lies far inside the representable one.
#[verifier::external_body]
pub(crate) fn rule_after(rs: rrule::RRuleSet, t: i64) -> (r: rrule::RRuleSet)
    requires
        BOUNDARY_MIN - 86_400 <= t <= BOUNDARY_MAX + 86_400,
    ensures
        forall|rule: Seq<char>, lower: Option<int>, upper: Option<int>|
            rule_set_models(rs, rule, lower, upper) ==> rule_set_models(
                r,
                rule,
                Some(t as int),
                upper,
            ),
{
    rs.after(rrule::Tz::UTC.timestamp_opt(t, 0).unwrap())
}

/// Relies on `rrule::RRuleSet::before`, which only records the upper window
/// bound, and on `chrono::TimeZone::timestamp_opt`, as above.
#[verifier::external_body]
pub(crate) fn rule_before(rs: rrule::RRuleSet, t: i64) -> (r: rrule::RRuleSet)
    requires
        BOUNDARY_MIN - 86_400 <= t <= BOUNDARY_MAX + 86_400,
    ensures
        forall|rule: Seq<char>, lower: Option<int>, upper: Option<int>|
            rule_set_models(rs, rule, lower, upper) ==> rule_set_models(
                r,
                rule,
                lower,
                Some(t as int),
            ),
{
    rs.before(rrule::Tz::UTC.timestamp_opt(t, 0).unwrap())
}

/// Relies on `rrule::RRuleSet::all`: it keeps at most `limit` occurrences,
/// keeps only those inside the recorded bounds (both ends inclusive), and
/// yields them in chronological order; on `chrono::DateTime::timestamp` to
/// read each occurrence as an instant; and, for the last two clauses, on the
/// collect loop reading the candidate stream in order, so that raising the
/// upper bound only lengthens the result. The set must come from a
/// zone-fixed block: only then is iteration confined to UTC, where no
/// calendar day is skipped, so the engine cannot abort resolving a civil
/// time.
#[verifier::external_body]
pub(crate) fn rule_all(rs: rrule::RRuleSet, limit: u16) -> (r: Vec<i64>)
    requires
        exists|rule: Seq<char>, lower: Option<int>, upper: Option<int>|
            #[trigger] rule_set_models(rs, rule, lower, upper) && zone_fixed(rule),
    ensures
        r@.len() <= limit,
        forall|i: int, j: int| 0 <= i <= j < r@.len() ==> #[trigger] r@[i] <= #[trigger] r@[j],
        forall|rule: Seq<char>, lower: Option<int>, upper: Option<int>|
            #[trigger] rule_set_models(rs, rule, lower, upper) && zone_fixed(rule) ==> {
                &&& r@.map_values(|x: i64| x as int) == engine_dates(rule, lower, upper, limit as int)
                &&& (lower matches Some(lo) ==> forall|i: int|
                    0 <= i < r@.len() ==> lo <= #[trigger] r@[i] as int)
                &&& (upper matches Some(hi) ==> forall|i: int|
                    0 <= i < r@.len() ==> #[trigger] r@[i] as int <= hi)
                &&& (forall|i: int|
                    0 <= i < r@.len() ==> OCCURRENCE_MIN <= #[trigger] r@[i] <= OCCURRENCE_MAX)
                &&& (upper matches Some(h1) ==> forall|h2: int|
                    h1 <= h2 ==> ordered_extension(
                        r@.map_values(|x: i64| x as int),
                        #[trigger] engine_dates(rule, lower, Some(h2), limit as int),
                    ))
            },
{
    let dates = rs.all(limit).dates;
    dates.iter().map(|d| d.timestamp()).collect()
}

} // verus!
