use s3pulse::error::TemplateError;
use s3pulse::template::{parse_time_zone, DateTemplate, Granularity};
use s3pulse::time::{millis_between, Civil, Timestamp, Zone, FIRST_SECOND, LAST_SECOND};

fn at(text: &str) -> Timestamp {
    let parsed = chrono::DateTime::parse_from_rfc3339(text).unwrap();
    Timestamp::new(parsed.timestamp(), parsed.timestamp_subsec_nanos()).unwrap()
}

#[test]
fn a_prefix_without_placeholders_is_not_a_template() {
    assert_eq!(DateTemplate::parse("trades/").unwrap(), None);
    assert_eq!(DateTemplate::parse("").unwrap(), None);
}

#[test]
fn hive_style_and_compact_layouts_both_work() {
    let hive = DateTemplate::parse("trades/{yyyy}/{MM}/{dd}/")
        .unwrap()
        .unwrap();
    assert_eq!(
        hive.resolve(at("2026-08-12T09:30:00Z"), 0),
        vec!["trades/2026/08/12/"]
    );

    let compact = DateTemplate::parse("trades/{yyyy}{MM}{dd}/")
        .unwrap()
        .unwrap();
    assert_eq!(
        compact.resolve(at("2026-08-12T09:30:00Z"), 0),
        vec!["trades/20260812/"]
    );
}

#[test]
fn lookback_covers_the_rollover() {
    let template = DateTemplate::parse("trades/{yyyy}{MM}{dd}/")
        .unwrap()
        .unwrap();
    assert_eq!(
        template.resolve(at("2026-08-12T00:05:00Z"), 1),
        vec!["trades/20260812/", "trades/20260811/"]
    );
}

#[test]
fn stepping_back_crosses_month_and_year_boundaries() {
    let daily = DateTemplate::parse("{yyyy}/{MM}/{dd}/").unwrap().unwrap();
    assert_eq!(
        daily.resolve(at("2026-03-01T00:10:00Z"), 1),
        vec!["2026/03/01/", "2026/02/28/"]
    );
    assert_eq!(
        daily.resolve(at("2026-01-01T00:10:00Z"), 1),
        vec!["2026/01/01/", "2025/12/31/"]
    );
    // 2024 is a leap year, so the day before 1 March is the 29th.
    assert_eq!(
        daily.resolve(at("2024-03-01T00:10:00Z"), 1),
        vec!["2024/03/01/", "2024/02/29/"]
    );
}

#[test]
fn granularity_follows_the_finest_placeholder() {
    let hourly = DateTemplate::parse("{yyyy}/{MM}/{dd}/{HH}/")
        .unwrap()
        .unwrap();
    assert_eq!(hourly.granularity(), Granularity::Hour);
    assert_eq!(
        hourly.resolve(at("2026-08-12T00:30:00Z"), 1),
        vec!["2026/08/12/00/", "2026/08/11/23/"]
    );

    let monthly = DateTemplate::parse("{yyyy}/{MM}/").unwrap().unwrap();
    assert_eq!(monthly.granularity(), Granularity::Month);
    assert_eq!(
        monthly.resolve(at("2026-01-15T00:00:00Z"), 1),
        vec!["2026/01/", "2025/12/"]
    );

    // Stepping a month back from the 31st must stay inside the shorter month.
    let monthly_day = DateTemplate::parse("{yyyy}/{MM}/").unwrap().unwrap();
    assert_eq!(
        monthly_day.resolve(at("2026-03-31T00:00:00Z"), 1),
        vec!["2026/03/", "2026/02/"]
    );
}

#[test]
fn unpadded_variants_render_without_leading_zeroes() {
    let template = DateTemplate::parse("{yyyy}-{M}-{d}/").unwrap().unwrap();
    assert_eq!(
        template.resolve(at("2026-08-05T00:00:00Z"), 0),
        vec!["2026-8-5/"]
    );
    let short_year = DateTemplate::parse("{yy}{MM}{dd}/").unwrap().unwrap();
    assert_eq!(
        short_year.resolve(at("2026-08-05T00:00:00Z"), 0),
        vec!["260805/"]
    );
}

#[test]
fn duplicate_periods_are_collapsed() {
    let yearly = DateTemplate::parse("{yyyy}/").unwrap().unwrap();
    assert_eq!(
        yearly.resolve(at("2026-08-12T00:00:00Z"), 2),
        vec!["2026/", "2025/", "2024/"]
    );
}

#[test]
fn braces_can_still_be_literal() {
    let template = DateTemplate::parse("odd{{name}}/{yyyy}/").unwrap().unwrap();
    assert_eq!(
        template.resolve(at("2026-08-12T00:00:00Z"), 0),
        vec!["odd{name}/2026/"]
    );
    // Escaped braces alone are not a template.
    assert_eq!(DateTemplate::parse("odd{{name}}/").unwrap(), None);
}

#[test]
fn confusing_or_malformed_placeholders_are_rejected_with_a_reason() {
    assert!(matches!(
        DateTemplate::parse("{yyyy}/{mm}/").unwrap_err(),
        TemplateError::MinutesNotMonths
    ));
    assert!(matches!(
        DateTemplate::parse("{year}/").unwrap_err(),
        TemplateError::UnknownPlaceholder(name) if name == "year"
    ));
    assert!(matches!(
        DateTemplate::parse("{yyyy/").unwrap_err(),
        TemplateError::UnclosedPlaceholder
    ));
    assert!(matches!(
        DateTemplate::parse("yyyy}/").unwrap_err(),
        TemplateError::UnmatchedBrace
    ));
}

#[test]
fn hours_render_padded_and_unpadded() {
    let template = DateTemplate::parse("{HH}-{H}").unwrap().unwrap();
    assert_eq!(
        template.resolve(at("2026-08-12T07:30:00Z"), 2),
        vec!["07-7", "06-6", "05-5"]
    );
}

#[test]
fn looking_further_back_only_appends() {
    let template = DateTemplate::parse("{yyyy}{MM}").unwrap().unwrap();
    let now = at("2026-08-31T00:00:00Z");
    let longer = template.resolve(now, 20);
    for lookback in 0..20 {
        let shorter = template.resolve(now, lookback);
        assert_eq!(shorter[..], longer[..shorter.len()]);
    }
}

#[test]
fn day_of_month_templates_repeat_after_a_month_and_are_listed_once() {
    let template = DateTemplate::parse("{d}/").unwrap().unwrap();
    let prefixes = template.resolve(at("2026-08-31T00:00:00Z"), 40);
    assert_eq!(prefixes.len(), 31);
    assert_eq!(prefixes[0], "31/");
    assert_eq!(prefixes[30], "1/");
}

#[test]
fn a_yearly_step_back_from_a_leap_day_is_clamped() {
    let template = DateTemplate::parse("{yyyy}").unwrap().unwrap();
    assert_eq!(
        template.resolve(at("2024-02-29T12:00:00Z"), 1),
        vec!["2024", "2023"]
    );
}

#[test]
fn years_outside_the_calendar_fall_back_to_the_instant() {
    let template = DateTemplate::parse("{yyyy}").unwrap().unwrap();
    let first = Timestamp::from_civil(Civil {
        year: -262143,
        month: 6,
        day: 1,
        hour: 0,
        minute: 0,
        second: 0,
    })
    .unwrap();
    assert_eq!(template.resolve(first, 1), vec!["-262143"]);
    let early = Timestamp::from_civil(Civil {
        year: -5,
        ..first.civil()
    })
    .unwrap();
    assert_eq!(
        template.resolve(early, 0),
        vec![format!("{:04}", early.civil().year)]
    );
    let short = DateTemplate::parse("{yy}").unwrap().unwrap();
    assert_eq!(short.resolve(early, 0), vec!["95"]);
}

#[test]
fn placeholders_can_resolve_on_a_zone_wall_clock() {
    let template = DateTemplate::parse("{yyyy}{MM}{dd}").unwrap().unwrap();
    let sydney = parse_time_zone("Australia/Sydney").unwrap();
    // Sydney is ten hours ahead of UTC in August.
    assert_eq!(
        template.resolve_in(at("2026-08-12T15:00:00Z"), 1, &sydney),
        vec!["20260813", "20260812"]
    );
    assert_eq!(
        template.resolve(at("2026-08-12T15:00:00Z"), 1),
        vec!["20260812", "20260811"]
    );
    let utc = parse_time_zone("UTC").unwrap();
    assert_eq!(
        template.resolve_in(at("2026-08-12T15:00:00Z"), 1, &utc),
        vec!["20260812", "20260811"]
    );
}

#[test]
fn zoned_hours_step_back_in_real_time() {
    let template = DateTemplate::parse("{HH}").unwrap().unwrap();
    let berlin = parse_time_zone("Europe/Berlin").unwrap();
    // Clocks went from 02:00 to 03:00 at 01:00 UTC on 29 March 2026.
    assert_eq!(
        template.resolve_in(at("2026-03-29T01:30:00Z"), 1, &berlin),
        vec!["03", "01"]
    );
}

#[test]
fn unknown_zones_are_named() {
    assert_eq!(
        parse_time_zone("Mars/Olympus").unwrap_err(),
        TemplateError::UnknownTimeZone("Mars/Olympus".to_owned())
    );
    assert!(Zone::named("Australia/Sydney").is_some());
    assert!(Zone::named("australia").is_none());
}

#[test]
fn instants_read_as_calendar_dates_and_back() {
    let moment = at("2026-08-12T09:30:15.250Z");
    let civil = moment.civil();
    assert_eq!(
        civil,
        Civil {
            year: 2026,
            month: 8,
            day: 12,
            hour: 9,
            minute: 30,
            second: 15
        }
    );
    assert_eq!(
        Timestamp::from_civil(civil).unwrap(),
        at("2026-08-12T09:30:15Z")
    );
    let no_such_day = Civil {
        month: 2,
        day: 30,
        ..civil
    };
    assert!(Timestamp::from_civil(no_such_day).is_none());
    assert_eq!(moment.date_time_text(), "2026-08-12 09:30:15");
    assert_eq!(moment.clock_text(), "09:30:15");
    assert_eq!(moment.to_rfc3339(), "2026-08-12T09:30:15.250+00:00");
    assert_eq!(moment.to_rfc3339_zulu(), "2026-08-12T09:30:15.250Z");
    assert_eq!(
        at("2026-08-12T09:30:15Z").to_rfc3339_zulu(),
        "2026-08-12T09:30:15Z"
    );
    assert_eq!(
        Timestamp::new(0, 1_500).unwrap().to_rfc3339_zulu(),
        "1970-01-01T00:00:00.000001500Z"
    );
    assert_eq!(
        Timestamp::new(0, 15_000).unwrap().to_rfc3339(),
        "1970-01-01T00:00:00.000015+00:00"
    );
}

#[test]
fn the_ends_of_the_calendar_are_read_and_written() {
    let first = Timestamp::new(FIRST_SECOND, 0).unwrap();
    let last = Timestamp::new(LAST_SECOND, 999_999_999).unwrap();
    let civil = first.civil();
    assert_eq!((civil.year, civil.month, civil.day), (-262143, 1, 1));
    assert_eq!(Timestamp::from_civil(civil), Some(first));
    assert_eq!(first.to_rfc3339(), "-262143-01-01T00:00:00+00:00");
    assert_eq!(first.date_time_text(), "-262143-01-01 00:00:00");
    let civil = last.civil();
    assert_eq!((civil.year, civil.month, civil.day), (262142, 12, 31));
    assert_eq!((civil.hour, civil.minute, civil.second), (23, 59, 59));
    assert_eq!(
        Timestamp::from_civil(civil),
        Timestamp::new(LAST_SECOND, 0)
    );
    assert_eq!(last.to_rfc3339_zulu(), "+262142-12-31T23:59:59.999999999Z");
    assert_eq!(last.clock_text(), "23:59:59");
    let before_the_common_era = Civil {
        year: -7,
        month: 2,
        day: 28,
        hour: 1,
        minute: 2,
        second: 3,
    };
    let at = Timestamp::from_civil(before_the_common_era).unwrap();
    assert_eq!(at.to_rfc3339_zulu(), "-0007-02-28T01:02:03Z");
    assert_eq!(at.date_time_text(), "-0007-02-28 01:02:03");
    assert_eq!(at.civil(), before_the_common_era);
    for broken in [
        Civil { year: 262143, ..civil },
        Civil { month: 13, ..civil },
        Civil { month: 0, ..civil },
        Civil { day: 0, ..civil },
        Civil { hour: 24, ..civil },
        Civil { minute: 60, ..civil },
        Civil { second: 60, ..civil },
    ] {
        assert_eq!(Timestamp::from_civil(broken), None);
    }
}

#[test]
fn instants_outside_the_calendar_are_refused() {
    assert!(Timestamp::new(LAST_SECOND, 999_999_999).is_some());
    assert!(Timestamp::new(LAST_SECOND + 1, 0).is_none());
    assert!(Timestamp::new(0, 1_000_000_000).is_none());
    assert!(Timestamp::new(LAST_SECOND, 0)
        .unwrap()
        .plus_millis(1_000)
        .is_none());
}

#[test]
fn elapsed_time_is_whole_milliseconds_and_never_negative() {
    let early = Timestamp::new(10, 999_999).unwrap();
    let late = Timestamp::new(12, 0).unwrap();
    assert_eq!(millis_between(&early, &late), 1_999);
    assert_eq!(millis_between(&late, &early), 0);
    assert_eq!(
        early.plus_millis(1_500).unwrap(),
        Timestamp::new(11, 500_999_999).unwrap()
    );
}

#[test]
fn the_clock_runs_after_the_epoch() {
    let now = Timestamp::now();
    let reference = chrono::Utc::now().timestamp();
    assert!((reference - now.seconds()).abs() < 60);
}
