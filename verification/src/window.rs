use vstd::prelude::*;
use vstd::arithmetic::div_mod::lemma_div_is_ordered;
use crate::boundary::boundary_outcome;
use crate::boundary::resolve_boundary;
use crate::boundary::BOUNDARY_MAX;
use crate::boundary::BOUNDARY_MIN;
use crate::dates::day_of_instant;
use crate::dates::floor_day;
use crate::dates::lemma_lex_lt_irreflexive;
use crate::dates::lex_lt;
use crate::dates::DAY_MAX;
use crate::dates::DAY_MIN;
use crate::engine::chronological;
use crate::engine::engine_dates;
use crate::engine::parse_rule_set;
use crate::engine::rule_after;
use crate::engine::rule_all;
use crate::engine::rule_before;
use crate::engine::rule_parses;
use crate::engine::rule_set_models;
use crate::engine::OCCURRENCE_MAX;
use crate::engine::OCCURRENCE_MIN;
use crate::errors::error_message;
use crate::errors::ErrorModel;
use crate::errors::RangeError;
use crate::project::date_repr;
use crate::project::project_all;
use crate::project::projected_date;
use crate::rule_text::is_zone_fixed;
use crate::rule_text::zone_fixed;

verus! {

/// One day of padding, in seconds, taken off the lower window bound and added
/// to the upper one before asking the engine. The boundary instants sit just
/// past local midnight, so without the padding an occurrence landing exactly
/// on a boundary date could be lost to the time-of-day offset; the retained
/// occurrences are then filtered back to the caller's own date range.
pub const PAD_SECONDS: i64 = 86_400;

/// The hard cap on the number of occurrences one evaluation returns. The cap
/// is handed to the engine as a generation limit, so pathological
/// high-frequency rules cannot force unbounded enumeration.
pub const OCCURRENCE_CAP: u16 = 100;

/// The padded upper bound handed to the engine, when one was supplied.
pub open spec fn padded_upper(before: Option<int>) -> Option<int> {
    match before {
        Some(b) => Some(b + PAD_SECONDS),
        None => None,
    }
}

/// The occurrence instants the engine yields for a rule over the padded
/// window around the resolved boundary instants.
pub open spec fn window_dates(rule: Seq<char>, after: int, before: Option<int>) -> Seq<int> {
    engine_dates(rule, Some(after - PAD_SECONDS), padded_upper(before), OCCURRENCE_CAP as int)
}

/// The last calendar day the evaluator may emit: the day of the upper
/// boundary when one was supplied, else the last day a four-digit year can
/// name.
pub open spec fn upper_filter_day(before: Option<int>) -> int {
    match before {
        Some(b) => day_of_instant(b),
        None => DAY_MAX as int,
    }
}

/// Whether the occurrence at position `i` is retained: its calendar day lies
/// in the caller's day range, and it is the first occurrence on its day.
pub open spec fn occurrence_kept(ts: Seq<int>, lo_day: int, hi_day: int, i: int) -> bool {
    &&& lo_day <= day_of_instant(ts[i])
    &&& day_of_instant(ts[i]) <= hi_day
    &&& (i == 0 || day_of_instant(ts[i - 1]) != day_of_instant(ts[i]))
}

/// The retained occurrences from position `i` on.
pub open spec fn kept_from(ts: Seq<int>, lo_day: int, hi_day: int, i: int) -> Seq<int>
    decreases ts.len() - i when 0 <= i
{
    if i >= ts.len() {
        Seq::empty()
    } else if occurrence_kept(ts, lo_day, hi_day, i) {
        seq![ts[i]] + kept_from(ts, lo_day, hi_day, i + 1)
    } else {
        kept_from(ts, lo_day, hi_day, i + 1)
    }
}

/// The retained occurrences of a whole engine sequence: one per calendar day,
/// clipped to the caller's own (unpadded) day range.
pub open spec fn kept_occurrences(ts: Seq<int>, lo_day: int, hi_day: int) -> Seq<int> {
    kept_from(ts, lo_day, hi_day, 0)
}

/// The projection of an instant sequence to calendar-date strings, in order.
pub open spec fn dates_view(ts: Seq<int>) -> Seq<Seq<char>> {
    ts.map_values(|t: int| projected_date(t))
}

/// The character sequence behind an optional borrowed date string.
pub open spec fn opt_view(o: Option<&str>) -> Option<Seq<char>> {
    match o {
        Some(s) => Some(s@),
        None => None,
    }
}

/// The character sequence behind an optional owned date string.
pub open spec fn opt_string_view(o: Option<String>) -> Option<Seq<char>> {
    match o {
        Some(s) => Some(s@),
        None => None,
    }
}

/// The date strings of a successful evaluation: the engine's occurrences for
/// the padded window, filtered and deduplicated by calendar day, projected.
pub open spec fn ok_dates(rule: Seq<char>, a: int, before: Option<int>) -> Seq<Seq<char>> {
    dates_view(
        kept_occurrences(window_dates(rule, a, before), day_of_instant(a), upper_filter_day(before)),
    )
}

/// The complete outcome of one evaluation, as a function of the three inputs
/// alone: each failure kind exactly on the inputs that provoke it, and
/// otherwise the filtered, deduplicated, projected occurrence list.
pub open spec fn range_result(rule: Seq<char>, after: Seq<char>, before: Option<Seq<char>>) -> Result<
    Seq<Seq<char>>,
    ErrorModel,
> {
    if !(zone_fixed(rule) && rule_parses(rule)) {
        Err(ErrorModel::RuleFormat)
    } else {
        match boundary_outcome(after) {
            Err(d) => Err(ErrorModel::AfterDateFormat(d)),
            Ok(a) => match before {
                Some(bs) => match boundary_outcome(bs) {
                    Err(d) => Err(ErrorModel::BeforeDateFormat(d)),
                    Ok(b) => Ok(ok_dates(rule, a, Some(b))),
                },
                None => Ok(ok_dates(rule, a, None)),
            },
        }
    }
}

/// Strict ascent: each date string is lexicographically below every later
/// one, so the list carries no duplicates.
pub open spec fn strictly_ascending_dates(ds: Seq<Seq<char>>) -> bool {
    forall|i: int, j: int|
        #![trigger ds[i], ds[j]]
        0 <= i < j < ds.len() ==> lex_lt(ds[i], ds[j]) && ds[i] != ds[j]
}

/// The calendar day of an earlier instant is no later.
pub proof fn lemma_day_monotone(a: int, b: int)
    requires
        a <= b,
    ensures
        day_of_instant(a) <= day_of_instant(b),
{
    lemma_div_is_ordered(a, b, 86_400);
}

/// Facts about the retained occurrences: each lies (by day) in the caller's
/// range, each falls on a later day than anything before the scan start, and
/// their days strictly increase.
pub proof fn lemma_kept_from_facts(ts: Seq<int>, lo: int, hi: int, i: int)
    requires
        0 <= i,
        chronological(ts),
    ensures
        forall|k: int|
            0 <= k < kept_from(ts, lo, hi, i).len() ==> lo <= day_of_instant(
                #[trigger] kept_from(ts, lo, hi, i)[k],
            ) <= hi,
        i > 0 ==> forall|k: int|
            0 <= k < kept_from(ts, lo, hi, i).len() ==> day_of_instant(
                #[trigger] kept_from(ts, lo, hi, i)[k],
            ) > day_of_instant(ts[i - 1]),
        forall|k1: int, k2: int|
            #![trigger kept_from(ts, lo, hi, i)[k1], kept_from(ts, lo, hi, i)[k2]]
            0 <= k1 < k2 < kept_from(ts, lo, hi, i).len() ==> day_of_instant(
                kept_from(ts, lo, hi, i)[k1],
            ) < day_of_instant(kept_from(ts, lo, hi, i)[k2]),
    decreases ts.len() - i,
{
    if i < ts.len() {
        lemma_kept_from_facts(ts, lo, hi, i + 1);
        let kf = kept_from(ts, lo, hi, i);
        let rest = kept_from(ts, lo, hi, i + 1);
        if i > 0 {
            lemma_day_monotone(ts[i - 1], ts[i]);
        }
        if occurrence_kept(ts, lo, hi, i) {
            assert(kf == seq![ts[i]] + rest);
            assert forall|k: int| 0 <= k < kf.len() implies lo <= day_of_instant(
                #[trigger] kf[k],
            ) <= hi by {
                if k > 0 {
                    assert(kf[k] == rest[k - 1]);
                }
            }
            if i > 0 {
                assert forall|k: int| 0 <= k < kf.len() implies day_of_instant(#[trigger] kf[k])
                    > day_of_instant(ts[i - 1]) by {
                    if k > 0 {
                        assert(kf[k] == rest[k - 1]);
                        assert(day_of_instant(rest[k - 1]) > day_of_instant(ts[i]));
                    }
                }
            }
            assert forall|k1: int, k2: int|
                #![trigger kf[k1], kf[k2]]
                0 <= k1 < k2 < kf.len() implies day_of_instant(kf[k1]) < day_of_instant(
                kf[k2],
            ) by {
                assert(kf[k2] == rest[k2 - 1]);
                assert(day_of_instant(rest[k2 - 1]) > day_of_instant(ts[i]));
                if k1 > 0 {
                    assert(kf[k1] == rest[k1 - 1]);
                }
            }
        } else {
            assert(kf == rest);
            assert forall|k: int| 0 <= k < kf.len() implies lo <= day_of_instant(
                #[trigger] kf[k],
            ) <= hi by {
                assert(kf[k] == rest[k]);
            }
            if i > 0 {
                assert forall|k: int| 0 <= k < kf.len() implies day_of_instant(#[trigger] kf[k])
                    > day_of_instant(ts[i - 1]) by {
                    assert(kf[k] == rest[k]);
                    assert(day_of_instant(rest[k]) > day_of_instant(ts[i]));
                }
            }
            assert forall|k1: int, k2: int|
                #![trigger kf[k1], kf[k2]]
                0 <= k1 < k2 < kf.len() implies day_of_instant(kf[k1]) < day_of_instant(
                kf[k2],
            ) by {
                assert(kf[k1] == rest[k1]);
                assert(kf[k2] == rest[k2]);
            }
        }
    }
}

/// Retained occurrences are drawn from the scanned sequence, so its bounds
/// carry over to them.
pub proof fn lemma_kept_from_within(ts: Seq<int>, lo: int, hi: int, i: int, min: int, max: int)
    requires
        0 <= i,
        forall|m: int| 0 <= m < ts.len() ==> min <= #[trigger] ts[m] <= max,
    ensures
        forall|k: int|
            0 <= k < kept_from(ts, lo, hi, i).len() ==> min <= #[trigger] kept_from(
                ts,
                lo,
                hi,
                i,
            )[k] <= max,
    decreases ts.len() - i,
{
    if i < ts.len() {
        lemma_kept_from_within(ts, lo, hi, i + 1, min, max);
        let kf = kept_from(ts, lo, hi, i);
        let rest = kept_from(ts, lo, hi, i + 1);
        assert forall|k: int| 0 <= k < kf.len() implies min <= #[trigger] kf[k] <= max by {
            if occurrence_kept(ts, lo, hi, i) {
                if k > 0 {
                    assert(kf[k] == rest[k - 1]);
                }
            } else {
                assert(kf[k] == rest[k]);
            }
        }
    }
}

/// Retained occurrences of a prefix are a prefix of the retained occurrences.
pub proof fn lemma_kept_from_extend(ts1: Seq<int>, ts2: Seq<int>, lo: int, hi: int, i: int)
    requires
        0 <= i,
        ts1.is_prefix_of(ts2),
    ensures
        kept_from(ts1, lo, hi, i).is_prefix_of(kept_from(ts2, lo, hi, i)),
    decreases ts1.len() - i
{
    if i >= ts1.len() {
        assert(kept_from(ts1, lo, hi, i) =~= Seq::<int>::empty());
        assert(kept_from(ts1, lo, hi, i).is_prefix_of(kept_from(ts2, lo, hi, i)));
    } else {
        lemma_kept_from_extend(ts1, ts2, lo, hi, i + 1);
        assert(ts1[i] == ts2[i]);
        assert(i > 0 ==> ts1[i - 1] == ts2[i - 1]);
        assert(occurrence_kept(ts1, lo, hi, i) == occurrence_kept(ts2, lo, hi, i));
        let a = kept_from(ts1, lo, hi, i + 1);
        let b = kept_from(ts2, lo, hi, i + 1);
        if occurrence_kept(ts1, lo, hi, i) {
            assert((seq![ts1[i]] + a) =~= (seq![ts2[i]] + b).take(1 + a.len() as int));
        }
    }
}

/// Past an occurrence whose day exceeds the bound, nothing is retained.
pub proof fn lemma_kept_from_none_above(ts: Seq<int>, lo: int, hi: int, i: int)
    requires
        0 <= i,
        chronological(ts),
        i < ts.len() ==> day_of_instant(ts[i]) > hi,
    ensures
        kept_from(ts, lo, hi, i).len() == 0,
    decreases ts.len() - i,
{
    if i < ts.len() {
        if i + 1 < ts.len() {
            assert(ts[i] <= ts[i + 1]);
            lemma_day_monotone(ts[i], ts[i + 1]);
        }
        lemma_kept_from_none_above(ts, lo, hi, i + 1);
    }
}

/// Raising the upper day bound only appends retained occurrences.
pub proof fn lemma_kept_from_widen(ts: Seq<int>, lo: int, h1: int, h2: int, i: int)
    requires
        0 <= i,
        chronological(ts),
        h1 <= h2,
    ensures
        kept_from(ts, lo, h1, i).is_prefix_of(kept_from(ts, lo, h2, i)),
    decreases ts.len() - i,
{
    if i >= ts.len() {
        assert(kept_from(ts, lo, h1, i) =~= Seq::<int>::empty());
        assert(kept_from(ts, lo, h1, i).is_prefix_of(kept_from(ts, lo, h2, i)));
    } else if day_of_instant(ts[i]) > h1 {
        lemma_kept_from_none_above(ts, lo, h1, i);
        assert(kept_from(ts, lo, h1, i) =~= Seq::<int>::empty());
        assert(kept_from(ts, lo, h1, i).is_prefix_of(kept_from(ts, lo, h2, i)));
    } else {
        lemma_kept_from_widen(ts, lo, h1, h2, i + 1);
        assert(occurrence_kept(ts, lo, h1, i) == occurrence_kept(ts, lo, h2, i));
        let a = kept_from(ts, lo, h1, i + 1);
        let b = kept_from(ts, lo, h2, i + 1);
        if occurrence_kept(ts, lo, h1, i) {
            assert((seq![ts[i]] + a) =~= (seq![ts[i]] + b).take(1 + a.len() as int));
        }
    }
}

/// An inverted day range retains nothing.
pub proof fn lemma_kept_from_inverted(ts: Seq<int>, lo: int, hi: int, i: int)
    requires
        0 <= i,
        hi < lo,
    ensures
        kept_from(ts, lo, hi, i).len() == 0,
    decreases ts.len() - i
{
    if i < ts.len() {
        lemma_kept_from_inverted(ts, lo, hi, i + 1);
    }
}

/// Projection preserves the prefix relation.
pub proof fn lemma_dates_view_prefix(a: Seq<int>, b: Seq<int>)
    requires
        a.is_prefix_of(b),
    ensures
        dates_view(a).is_prefix_of(dates_view(b)),
{
    assert(dates_view(a) =~= dates_view(b).take(a.len() as int));
}


/// Evaluates one request: loads the rule (zone-fixed texts only), resolves
/// the boundary dates, pads the window, pulls at most the capped number of
/// occurrences from the engine, filters them back to the caller's own date
/// range keeping one per calendar day, and projects each to a date string.
pub fn evaluate(rrule_str: &str, after_date_str: &str, before_date_str: Option<&str>) -> (r: Result<
    Vec<String>,
    RangeError,
>)
    ensures
        (match r {
            Ok(v) => Ok::<Seq<Seq<char>>, ErrorModel>(v.deep_view()),
            Err(e) => Err(e@),
        }) == range_result(rrule_str@, after_date_str@, opt_view(before_date_str)),
        r matches Ok(v) ==> v@.len() <= OCCURRENCE_CAP,
        r matches Ok(v) ==> strictly_ascending_dates(v.deep_view()),
        ({
            let before = opt_view(before_date_str);
            &&& before is Some
            &&& zone_fixed(rrule_str@)
            &&& rule_parses(rrule_str@)
            &&& boundary_outcome(after_date_str@) is Ok
            &&& boundary_outcome(before->Some_0) is Ok
            &&& day_of_instant(boundary_outcome(before->Some_0)->Ok_0) < day_of_instant(
                boundary_outcome(after_date_str@)->Ok_0,
            )
        }) ==> (r matches Ok(v) && v@.len() == 0),
        (r is Ok && opt_view(before_date_str) is Some) ==> (forall|b2: int|
            boundary_outcome(opt_view(before_date_str)->Some_0)->Ok_0 <= b2 ==> (
            #[trigger] ok_dates(
                rrule_str@,
                boundary_outcome(after_date_str@)->Ok_0,
                Some(boundary_outcome(opt_view(before_date_str)->Some_0)->Ok_0),
            )).is_prefix_of(
                ok_dates(rrule_str@, boundary_outcome(after_date_str@)->Ok_0, Some(b2)),
            )),
{
    if !is_zone_fixed(rrule_str) {
        return Err(RangeError::RuleFormat);
    }
    let rs = match parse_rule_set(rrule_str) {
        Ok(rs) => rs,
        Err(_) => {
            return Err(RangeError::RuleFormat);
        },
    };
    let after_instant = match resolve_boundary(after_date_str) {
        Ok(t) => t,
        Err(d) => {
            return Err(RangeError::AfterDateFormat(d));
        },
    };
    let before_instant: Option<i64> = match before_date_str {
        Some(bs) => match resolve_boundary(bs) {
            Ok(t) => Some(t),
            Err(d) => {
                return Err(RangeError::BeforeDateFormat(d));
            },
        },
        None => None,
    };
    let lower = after_instant - PAD_SECONDS;
    let ghost rule_seq = rrule_str@;
    let ghost upper_model: Option<int> = match before_instant {
        Some(b) => Some(b as int + PAD_SECONDS),
        None => None,
    };
    let ghost before_model: Option<int> = match before_instant {
        Some(b) => Some(b as int),
        None => None,
    };
    let rs = rule_after(rs, lower);
    let rs = match before_instant {
        Some(b) => rule_before(rs, b + PAD_SECONDS),
        None => rs,
    };
    proof {
        assert(rule_set_models(rs, rule_seq, Some(lower as int), upper_model));
    }
    let instants = rule_all(rs, OCCURRENCE_CAP);
    let ghost ts = instants@.map_values(|x: i64| x as int);
    proof {
        assert(ts == engine_dates(rule_seq, Some(lower as int), upper_model, OCCURRENCE_CAP as int));
        assert(ts == window_dates(rule_seq, after_instant as int, before_model));
        assert(chronological(ts)) by {
            assert forall|i: int, j: int| 0 <= i <= j < ts.len() implies #[trigger] ts[i]
                <= #[trigger] ts[j] by {
                assert(ts[i] == instants@[i] as int);
                assert(ts[j] == instants@[j] as int);
                assert(instants@[i] <= instants@[j]);
            }
        }
    }
    let lo_day = floor_day(after_instant);
    let hi_day: i64 = match before_instant {
        Some(b) => floor_day(b),
        None => DAY_MAX,
    };
    proof {
        lemma_day_monotone(BOUNDARY_MIN as int, after_instant as int);
        lemma_day_monotone(after_instant as int, BOUNDARY_MAX as int);
        vstd::arithmetic::div_mod::lemma_div_multiples_vanish_fancy(-719_528, 0, 86_400);
        assert(BOUNDARY_MIN as int / 86_400 == DAY_MIN as int);
        vstd::arithmetic::div_mod::lemma_div_multiples_vanish_fancy(2_932_896, 86_399, 86_400);
        assert(BOUNDARY_MAX as int / 86_400 == DAY_MAX as int);
        match before_instant {
            Some(b) => {
                lemma_day_monotone(BOUNDARY_MIN as int, b as int);
                lemma_day_monotone(b as int, BOUNDARY_MAX as int);
            },
            None => {},
        }
        assert(DAY_MIN <= lo_day && lo_day <= DAY_MAX);
        assert(DAY_MIN <= hi_day && hi_day <= DAY_MAX);
        assert(lo_day as int == day_of_instant(after_instant as int));
        assert(hi_day as int == upper_filter_day(before_model));
    }
    let mut kept: Vec<i64> = Vec::new();
    let mut idx: usize = 0;
    while idx < instants.len()
        invariant
            idx <= instants@.len(),
            kept@.len() <= idx,
            ts == instants@.map_values(|x: i64| x as int),
            kept@.map_values(|x: i64| x as int) + kept_from(
                ts,
                lo_day as int,
                hi_day as int,
                idx as int,
            ) == kept_occurrences(ts, lo_day as int, hi_day as int),
        decreases instants@.len() - idx,
    {
        let ghost kept_old = kept@;
        let t = instants[idx];
        let d = floor_day(t);
        let dup: bool = if idx == 0 {
            false
        } else {
            floor_day(instants[idx - 1]) == d
        };
        let keep = lo_day <= d && d <= hi_day && !dup;
        proof {
            assert(ts[idx as int] == instants@[idx as int] as int);
            assert(idx > 0 ==> ts[idx as int - 1] == instants@[idx as int - 1] as int);
            assert(keep == occurrence_kept(ts, lo_day as int, hi_day as int, idx as int));
        }
        if keep {
            kept.push(t);
        }
        proof {
            let lo = lo_day as int;
            let hi = hi_day as int;
            if keep {
                assert(kept@.map_values(|x: i64| x as int) =~= kept_old.map_values(|x: i64| x as int)
                    + seq![ts[idx as int]]);
                assert((kept_old.map_values(|x: i64| x as int) + seq![ts[idx as int]]) + kept_from(
                    ts,
                    lo,
                    hi,
                    idx as int + 1,
                ) =~= kept_old.map_values(|x: i64| x as int) + (seq![ts[idx as int]] + kept_from(
                    ts,
                    lo,
                    hi,
                    idx as int + 1,
                )));
                assert(kept_from(ts, lo, hi, idx as int) == seq![ts[idx as int]] + kept_from(
                    ts,
                    lo,
                    hi,
                    idx as int + 1,
                ));
            } else {
                assert(kept_from(ts, lo, hi, idx as int) == kept_from(ts, lo, hi, idx as int + 1));
            }
        }
        idx += 1;
    }
    proof {
        let lo = lo_day as int;
        let hi = hi_day as int;
        assert(kept_from(ts, lo, hi, instants@.len() as int) =~= Seq::<int>::empty());
        assert(kept@.map_values(|x: i64| x as int) =~= kept_occurrences(ts, lo, hi));
        lemma_kept_from_facts(ts, lo, hi, 0);
        assert forall|m: int| 0 <= m < ts.len() implies OCCURRENCE_MIN as int <= #[trigger] ts[m]
            <= OCCURRENCE_MAX as int by {
            assert(ts[m] == instants@[m] as int);
            assert(OCCURRENCE_MIN <= instants@[m] <= OCCURRENCE_MAX);
        }
        lemma_kept_from_within(ts, lo, hi, 0, OCCURRENCE_MIN as int, OCCURRENCE_MAX as int);
        assert forall|k: int| 0 <= k < kept@.len() implies OCCURRENCE_MIN <= #[trigger] kept@[k]
            <= OCCURRENCE_MAX by {
            assert(kept_occurrences(ts, lo, hi)[k] == kept@[k] as int);
        }
    }
    let dates = project_all(&kept);
    proof {
        let lo = lo_day as int;
        let hi = hi_day as int;
        let km = kept@.map_values(|x: i64| x as int);
        assert(dates.deep_view() =~~= dates_view(km));
        assert(dates.deep_view() =~~= ok_dates(rule_seq, after_instant as int, before_model));
        assert forall|i: int, j: int|
            #![trigger dates.deep_view()[i], dates.deep_view()[j]]
            0 <= i < j < dates.deep_view().len() implies lex_lt(
            dates.deep_view()[i],
            dates.deep_view()[j],
        ) && dates.deep_view()[i] != dates.deep_view()[j] by {
            let d1 = day_of_instant(km[i]);
            let d2 = day_of_instant(km[j]);
            assert(km[i] == kept_occurrences(ts, lo, hi)[i]);
            assert(km[j] == kept_occurrences(ts, lo, hi)[j]);
            assert(d1 < d2);
            assert(lo <= d1 <= hi && lo <= d2 <= hi);
            assert(DAY_MIN <= d1 < d2 <= DAY_MAX);
            assert(km[i] == kept@[i] as int && km[j] == kept@[j] as int);
            assert((kept@[i] as int) / 86_400 == d1);
            assert(dates.deep_view()[i] == dates@[i]@);
            assert(dates.deep_view()[j] == dates@[j]@);
            assert(dates@[j]@ == projected_date(kept@[j] as int));
            assert(dates@[j]@ == date_repr(d2));
            assert(lex_lt(dates@[i]@, date_repr(d2)));
            lemma_lex_lt_irreflexive(dates.deep_view()[i]);
        }
        if hi < lo {
            lemma_kept_from_inverted(ts, lo, hi, 0);
            assert(dates.deep_view().len() == 0);
        }
        match before_model {
            Some(b1) => {
                assert forall|b2: int| b1 <= b2 implies (#[trigger] ok_dates(
                    rule_seq,
                    after_instant as int,
                    Some(b1),
                )).is_prefix_of(ok_dates(rule_seq, after_instant as int, Some(b2))) by {
                    let ts2 = window_dates(rule_seq, after_instant as int, Some(b2));
                    assert(ts2 == engine_dates(
                        rule_seq,
                        Some(lower as int),
                        Some(b2 + PAD_SECONDS),
                        OCCURRENCE_CAP as int,
                    ));
                    assert(ts.is_prefix_of(ts2) && chronological(ts2));
                    lemma_day_monotone(b1, b2);
                    lemma_kept_from_extend(ts, ts2, lo, day_of_instant(b1), 0);
                    lemma_kept_from_widen(ts2, lo, day_of_instant(b1), day_of_instant(b2), 0);
                    let k1 = kept_occurrences(ts, lo, day_of_instant(b1));
                    let kmid = kept_occurrences(ts2, lo, day_of_instant(b1));
                    let k2 = kept_occurrences(ts2, lo, day_of_instant(b2));
                    assert(k1 =~= k2.take(k1.len() as int));
                    assert(k1.is_prefix_of(k2));
                    lemma_dates_view_prefix(k1, k2);
                    assert(hi == day_of_instant(b1));
                }
            },
            None => {},
        }
    }
    Ok(dates)
}

/// Evaluates one request and renders any failure as its diagnostic line, as
/// the caller-facing interface does.
pub fn rrule_range(
    rrule_str: String,
    after_date_str: String,
    before_date_str: Option<String>,
) -> (r: Result<Vec<String>, String>)
    ensures
        (match r {
            Ok(v) => Ok::<Seq<Seq<char>>, Seq<char>>(v.deep_view()),
            Err(m) => Err(m@),
        }) == (match range_result(
            rrule_str@,
            after_date_str@,
            opt_string_view(before_date_str),
        ) {
            Ok(ds) => Ok::<Seq<Seq<char>>, Seq<char>>(ds),
            Err(e) => Err(error_message(e)),
        }),
        r matches Ok(v) ==> v@.len() <= OCCURRENCE_CAP,
        r matches Ok(v) ==> strictly_ascending_dates(v.deep_view()),
        ({
            let before = opt_string_view(before_date_str);
            &&& before is Some
            &&& zone_fixed(rrule_str@)
            &&& rule_parses(rrule_str@)
            &&& boundary_outcome(after_date_str@) is Ok
            &&& boundary_outcome(before->Some_0) is Ok
            &&& day_of_instant(boundary_outcome(before->Some_0)->Ok_0) < day_of_instant(
                boundary_outcome(after_date_str@)->Ok_0,
            )
        }) ==> (r matches Ok(v) && v@.len() == 0),
        (r is Ok && opt_string_view(before_date_str) is Some) ==> (forall|b2: int|
            boundary_outcome(opt_string_view(before_date_str)->Some_0)->Ok_0 <= b2 ==> (
            #[trigger] ok_dates(
                rrule_str@,
                boundary_outcome(after_date_str@)->Ok_0,
                Some(boundary_outcome(opt_string_view(before_date_str)->Some_0)->Ok_0),
            )).is_prefix_of(
                ok_dates(rrule_str@, boundary_outcome(after_date_str@)->Ok_0, Some(b2)),
            )),
{
    let before_ref: Option<&str> = match &before_date_str {
        Some(s) => Some(s.as_str()),
        None => None,
    };
    proof {
        assert(opt_view(before_ref) == opt_string_view(before_date_str));
    }
    match evaluate(rrule_str.as_str(), after_date_str.as_str(), before_ref) {
        Ok(v) => Ok(v),
        Err(e) => Err(e.message()),
    }
}

/// Evaluating the same `(rule, after, before)` triple twice produces
/// identical output: the outcome is a function of the three inputs alone, and
/// the evaluator holds no state between invocations.
pub proof fn lemma_range_result_deterministic(
    rule: Seq<char>,
    after: Seq<char>,
    before: Option<Seq<char>>,
    r1: Result<Seq<Seq<char>>, ErrorModel>,
    r2: Result<Seq<Seq<char>>, ErrorModel>,
)
    requires
        r1 == range_result(rule, after, before),
        r2 == range_result(rule, after, before),
    ensures
        r1 == r2,
{
}

} // verus!
