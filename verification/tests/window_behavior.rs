use tapirrule::evaluate;
use tapirrule::project_date;
use tapirrule::resolve_boundary;
use tapirrule::rrule_range;
use tapirrule::RangeError;

const DAILY_TEN: &str = "DTSTART:20120201T000000Z\nRRULE:FREQ=DAILY;COUNT=10";

#[test]
fn error_kinds_are_distinguishable() {
    let rule_err = evaluate("not a rule", "2012-02-01", Some("2012-04-01")).unwrap_err();
    assert!(matches!(rule_err, RangeError::RuleFormat));

    let after_err = evaluate(DAILY_TEN, "2012-02-01ss", Some("2012-04-01")).unwrap_err();
    assert!(matches!(after_err, RangeError::AfterDateFormat(_)));

    let before_err = evaluate(DAILY_TEN, "2012-02-01", Some("2012-04-01ss")).unwrap_err();
    assert!(matches!(before_err, RangeError::BeforeDateFormat(_)));
}

#[test]
fn rule_text_is_checked_before_the_boundary_dates() {
    let err = evaluate("not a rule", "2012-02-01ss", Some("2012-04-01ss")).unwrap_err();
    assert!(matches!(err, RangeError::RuleFormat));
}

#[test]
fn signed_or_wide_year_boundary_date_is_rejected() {
    let err_string = rrule_range(
        DAILY_TEN.to_string(),
        "+99999-01-01".to_string(),
        Some("2012-04-01".to_string()),
    )
    .unwrap_err();
    assert_eq!(
        err_string,
        "after_date_str input contains invalid characters".to_string()
    );
}

#[test]
fn loosely_shaped_date_is_rejected() {
    let err_string = rrule_range(
        DAILY_TEN.to_string(),
        "2012-2-1".to_string(),
        Some("2012-04-01".to_string()),
    )
    .unwrap_err();
    assert_eq!(
        err_string,
        "after_date_str input contains invalid characters".to_string()
    );
}

#[test]
fn rule_without_utc_marker_is_rejected() {
    let err_string = rrule_range(
        "DTSTART:20120201T000000\nRRULE:FREQ=DAILY;COUNT=3".to_string(),
        "2012-02-01".to_string(),
        Some("2012-04-01".to_string()),
    )
    .unwrap_err();
    assert_eq!(err_string, "rrule_str invalid format".to_string());
}

#[test]
fn rule_with_zone_parameter_is_rejected() {
    let err_string = rrule_range(
        "DTSTART;TZID=America/New_York:20120201T000000\nRRULE:FREQ=DAILY;COUNT=3".to_string(),
        "2012-02-01".to_string(),
        Some("2012-04-01".to_string()),
    )
    .unwrap_err();
    assert_eq!(err_string, "rrule_str invalid format".to_string());
}

#[test]
fn until_without_utc_marker_is_rejected() {
    let err_string = rrule_range(
        "DTSTART:20120201T000000Z\nRRULE:FREQ=DAILY;UNTIL=20120301T000000".to_string(),
        "2012-02-01".to_string(),
        None,
    )
    .unwrap_err();
    assert_eq!(err_string, "rrule_str invalid format".to_string());
}

#[test]
fn until_with_utc_marker_is_accepted() {
    let dates = rrule_range(
        "DTSTART:20120201T000000Z\nRRULE:FREQ=DAILY;UNTIL=20120203T000000Z".to_string(),
        "2012-02-01".to_string(),
        None,
    )
    .unwrap();
    assert_eq!(
        dates,
        vec![
            "2012-02-01".to_string(),
            "2012-02-02".to_string(),
            "2012-02-03".to_string()
        ]
    );
}

#[test]
fn sub_daily_occurrences_collapse_to_one_date_each() {
    let dates = rrule_range(
        "DTSTART:20120201T000000Z\nRRULE:FREQ=HOURLY;COUNT=30".to_string(),
        "2012-02-01".to_string(),
        Some("2012-04-01".to_string()),
    )
    .unwrap();
    assert_eq!(dates, vec!["2012-02-01".to_string(), "2012-02-02".to_string()]);
}

#[test]
fn widening_the_upper_bound_only_appends() {
    let narrow = rrule_range(
        DAILY_TEN.to_string(),
        "2012-02-01".to_string(),
        Some("2012-02-05".to_string()),
    )
    .unwrap();
    let wide = rrule_range(
        DAILY_TEN.to_string(),
        "2012-02-01".to_string(),
        Some("2012-03-01".to_string()),
    )
    .unwrap();
    assert!(narrow.len() <= wide.len());
    assert_eq!(narrow[..], wide[..narrow.len()]);
}

#[test]
fn inverted_range_returns_empty_list() {
    let dates = rrule_range(
        DAILY_TEN.to_string(),
        "2012-03-01".to_string(),
        Some("2012-02-01".to_string()),
    )
    .unwrap();
    assert_eq!(dates, Vec::<String>::new());
}

#[test]
fn rule_entirely_before_the_window_gives_empty_list() {
    let dates = rrule_range(
        DAILY_TEN.to_string(),
        "2013-01-01".to_string(),
        Some("2013-02-01".to_string()),
    )
    .unwrap();
    assert_eq!(dates, Vec::<String>::new());
}

#[test]
fn lower_bound_trims_earlier_occurrences() {
    let dates = rrule_range(
        DAILY_TEN.to_string(),
        "2012-02-05".to_string(),
        Some("2012-04-01".to_string()),
    )
    .unwrap();
    assert_eq!(
        dates,
        vec![
            "2012-02-05".to_string(),
            "2012-02-06".to_string(),
            "2012-02-07".to_string(),
            "2012-02-08".to_string(),
            "2012-02-09".to_string(),
            "2012-02-10".to_string()
        ]
    );
}

#[test]
fn upper_bound_clips_to_the_callers_date() {
    let dates = rrule_range(
        DAILY_TEN.to_string(),
        "2012-02-01".to_string(),
        Some("2012-02-07".to_string()),
    )
    .unwrap();
    assert_eq!(
        dates,
        vec![
            "2012-02-01".to_string(),
            "2012-02-02".to_string(),
            "2012-02-03".to_string(),
            "2012-02-04".to_string(),
            "2012-02-05".to_string(),
            "2012-02-06".to_string(),
            "2012-02-07".to_string()
        ]
    );
}

#[test]
fn result_is_capped_and_strictly_ascending() {
    let dates = rrule_range(
        "DTSTART:20120201T000000Z\nRRULE:FREQ=DAILY;COUNT=200".to_string(),
        "2012-02-01".to_string(),
        None,
    )
    .unwrap();
    assert_eq!(dates.len(), 100);
    let mut i: usize = 1;
    while i < dates.len() {
        assert!(dates[i - 1] < dates[i]);
        i += 1;
    }
}

#[test]
fn same_query_twice_gives_identical_output() {
    let first = rrule_range(
        DAILY_TEN.to_string(),
        "2012-02-01".to_string(),
        Some("2012-04-01".to_string()),
    );
    let second = rrule_range(
        DAILY_TEN.to_string(),
        "2012-02-01".to_string(),
        Some("2012-04-01".to_string()),
    );
    assert_eq!(first, second);
}

#[test]
fn resolve_boundary_anchors_just_past_midnight() {
    assert_eq!(resolve_boundary("1970-01-01"), Ok(1));
    assert_eq!(resolve_boundary("2012-02-01"), Ok(1_328_054_401));
    assert!(resolve_boundary("2012-13-01").is_err());
    assert!(resolve_boundary("2012-02-30").is_err());
}

#[test]
fn project_date_formats_the_utc_calendar_day() {
    assert_eq!(project_date(0), "1970-01-01".to_string());
    assert_eq!(project_date(1_328_054_400), "2012-02-01".to_string());
    assert_eq!(project_date(1_328_140_799), "2012-02-01".to_string());
    assert_eq!(project_date(1_328_140_800), "2012-02-02".to_string());
}
