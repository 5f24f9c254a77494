use s3pulse::cli::{
    announce, can_resolve_targets, change_event, default_destination, download_outcome, history_cutoff, in_arrival_order, is_portable_file_name,
    newest_objects, parse_duration, parse_history_limit, parse_target, recent_objects,
    resolve_targets, stats_config, watch_config, QueryArgs, WatchArgs, DEFAULT_HISTORY_LIMIT,
    DEFAULT_POLL_INTERVAL, MAX_HISTORY_LIMIT,
};
use s3pulse::error::{StoreError, StoreErrorKind};
use s3pulse::history::RollingHistory;
use s3pulse::model::{ObjectChange, ObjectChangeKind, S3Object};
use s3pulse::output::{
    format_bytes, print_arrival, print_objects, print_statistics, terminal_text, title_case,
    DurationTexts,
};
use s3pulse::time::Timestamp;
use s3pulse::uri::S3Uri;

fn object(key: &str, seconds: i64) -> S3Object {
    S3Object {
        key: key.to_owned(),
        last_modified: Timestamp::new(seconds, 0).unwrap(),
        size: 2_048,
        etag: None,
        storage_class: None,
    }
}

fn keys(objects: &[S3Object]) -> Vec<&str> {
    objects.iter().map(|object| object.key.as_str()).collect()
}

#[test]
fn parses_duration_units() {
    assert_eq!(parse_duration("30").unwrap(), 30);
    assert_eq!(parse_duration("5m").unwrap(), 300);
    assert_eq!(parse_duration("24h").unwrap(), 86_400);
    assert_eq!(parse_duration("2days").unwrap(), 172_800);
}

#[test]
fn rejects_zero_and_unknown_units() {
    assert!(parse_duration("0s").is_err());
    assert!(parse_duration("10ms").is_err());
    assert!(parse_duration("").is_err());
}

#[test]
fn bounds_history_limits() {
    assert_eq!(parse_history_limit("1").unwrap(), 1);
    assert_eq!(
        parse_history_limit(&MAX_HISTORY_LIMIT.to_string()).unwrap(),
        MAX_HISTORY_LIMIT
    );
    assert!(parse_history_limit("0").is_err());
    assert!(parse_history_limit(&(MAX_HISTORY_LIMIT + 1).to_string()).is_err());
}

#[test]
fn durations_are_refused_with_a_reason() {
    let reason = |input: &str| parse_duration(input).unwrap_err();
    assert_eq!(reason("  "), "duration cannot be empty");
    assert_eq!(reason("h"), "invalid duration: h");
    assert_eq!(reason("-5"), "invalid duration: -5");
    assert_eq!(reason("5 m"), "unsupported duration unit in 5 m");
    assert_eq!(reason("0"), "duration must be greater than zero");
    assert_eq!(
        reason("18446744073709551615m"),
        "duration is too large: 18446744073709551615m"
    );
    assert_eq!(
        reason("18446744073709551616"),
        "invalid duration: 18446744073709551616"
    );
    assert_eq!(parse_duration(" 2HOURS\n").unwrap(), 7_200);
    assert_eq!(parse_duration("007s").unwrap(), 7);
}

#[test]
fn limits_are_refused_with_a_reason() {
    assert_eq!(
        parse_history_limit("many").unwrap_err(),
        "invalid history limit: many"
    );
    assert_eq!(
        parse_history_limit("0").unwrap_err(),
        "history limit must be between 1 and 100000"
    );
    assert_eq!(parse_history_limit("+5").unwrap(), 5);
    assert!(parse_history_limit(" 5").is_err());
}

#[test]
fn derives_default_destination_from_object_key() {
    let uri: S3Uri = "s3://bucket/feed/file.parquet".parse().unwrap();
    assert_eq!(default_destination(&uri).unwrap(), "file.parquet");
}

#[test]
fn bucket_root_is_not_a_download_target() {
    let uri: S3Uri = "s3://bucket".parse().unwrap();
    assert!(default_destination(&uri).is_err());
}

#[test]
fn unsafe_cross_platform_default_names_require_an_explicit_destination() {
    for target in [
        "s3://bucket/feed/..\\outside",
        "s3://bucket/feed/C:outside",
        "s3://bucket/feed/CON.txt",
        "s3://bucket/feed/trailing.",
    ] {
        assert!(
            default_destination(&target.parse().unwrap()).is_err(),
            "{target}"
        );
    }
}

#[test]
fn default_names_are_judged_on_their_last_segment() {
    let name = |target: &str| default_destination(&target.parse().unwrap());
    assert_eq!(name("s3://bucket/feed/dir//").unwrap(), "dir");
    assert_eq!(
        name("s3://bucket///").unwrap_err(),
        "download requires a full S3 object URI"
    );
    assert_eq!(
        name("s3://bucket/a/com1.log").unwrap_err(),
        "object name is unsafe as a default path; provide an explicit destination"
    );
    assert!(is_portable_file_name("com0"));
    assert!(!is_portable_file_name("LPT9"));
    assert!(is_portable_file_name("LPT10"));
    assert!(!is_portable_file_name("."));
    assert!(!is_portable_file_name("space "));
    assert!(!is_portable_file_name("a\u{1}"));
    assert!(is_portable_file_name("d\u{e9}j\u{e0}-vu"));
}

#[test]
fn targets_are_parsed_and_resolved() {
    let now = Timestamp::new(1_786_492_800, 0).unwrap();
    assert_eq!(now.date_time_text(), "2026-08-12 00:00:00");
    let plain = parse_target("s3://bucket/feed/").unwrap();
    let resolved = resolve_targets(&plain, now, 5).unwrap();
    assert_eq!(resolved.len(), 1);
    assert_eq!(resolved[0], plain);
    let dated = parse_target("s3://bucket/{yyyy}{MM}{dd}/").unwrap();
    let resolved = resolve_targets(&dated, now, 1).unwrap();
    let prefixes: Vec<&str> = resolved.iter().map(|uri| uri.prefix.as_str()).collect();
    assert_eq!(prefixes, ["20260812/", "20260811/"]);
    assert!(can_resolve_targets(&dated, &now, 1));
    assert!(!can_resolve_targets(&dated, &now, u32::MAX));
    assert!(can_resolve_targets(&plain, &now, u32::MAX));
    assert_eq!(
        parse_target("bucket").unwrap_err(),
        "S3 URI must start with s3://"
    );
    let broken = parse_target("s3://bucket/{yyyy").unwrap();
    assert_eq!(
        resolve_targets(&broken, now, 1).unwrap_err(),
        "a date placeholder is missing its closing brace"
    );
}

#[test]
fn listed_objects_are_shown_newest_first() {
    let all = vec![object("b", 5), object("a", 5), object("c", 9), object("d", 1)];
    assert_eq!(keys(&newest_objects(all.clone(), 3)), ["c", "a", "b"]);
    let cutoff = history_cutoff(&Timestamp::new(10, 0).unwrap(), 5).unwrap();
    assert_eq!(keys(&recent_objects(all.clone(), &cutoff, 10)), ["c", "a", "b"]);
    assert_eq!(keys(&recent_objects(all, &cutoff, 1)), ["c"]);
    assert!(history_cutoff(&Timestamp::new(10, 0).unwrap(), u64::MAX).is_err());
}

#[test]
fn changes_are_announced_in_the_order_of_arrival() {
    let change = |key: &str, seconds: i64, kind: ObjectChangeKind| ObjectChange {
        kind,
        object: object(key, seconds),
        previous: None,
    };
    let ordered = in_arrival_order(vec![
        change("late", 9, ObjectChangeKind::Added),
        change("z", 5, ObjectChangeKind::Updated),
        change("a", 5, ObjectChangeKind::Added),
    ]);
    let found: Vec<&str> = ordered.iter().map(|c| c.object.key.as_str()).collect();
    assert_eq!(found, ["z", "a", "late"]);
    assert_eq!(change_event(ObjectChangeKind::Added), "object.added");
    assert_eq!(change_event(ObjectChangeKind::Updated), "object.updated");

    let (arrivals, last) = announce(ordered, None);
    let found: Vec<(&str, &str, Option<u64>)> = arrivals
        .iter()
        .map(|a| (a.event, a.object.key.as_str(), a.since_previous))
        .collect();
    assert_eq!(
        found,
        [
            ("object.updated", "z", None),
            ("object.added", "a", Some(0)),
            ("object.added", "late", Some(4_000)),
        ]
    );
    assert_eq!(last, Timestamp::new(9, 0));
    // An object older than the one announced last.
    let (arrivals, last) = announce(vec![change("b", 7, ObjectChangeKind::Added)], last);
    assert_eq!(arrivals[0].since_previous, Some(0));
    let (arrivals, last) = announce(vec![], last);
    assert!(arrivals.is_empty());
    assert_eq!(last, Timestamp::new(7, 0));
}

#[test]
fn cancelled_downloads_are_reported_as_such() {
    assert_eq!(download_outcome(Ok(3), false), Ok(3));
    assert_eq!(
        download_outcome(Ok(3), true),
        Err("download cancelled".to_owned())
    );
    let failure = StoreError::new(StoreErrorKind::Io, "disk full".to_owned(), false);
    assert_eq!(
        download_outcome::<u8>(Err(failure), true),
        Err("disk full".to_owned())
    );
}

#[test]
fn command_line_arguments_become_configurations() {
    let target = parse_target("s3://bucket/feed/").unwrap();
    let query = QueryArgs {
        target: "s3://bucket/feed/".to_owned(),
        limit: 7,
        lookback: 2,
    };
    let config = stats_config(target.copy(), Some("prod".to_owned()), None, &query);
    assert_eq!(config.id, "stats");
    assert_eq!(config.name, "s3://bucket/feed/");
    assert_eq!(config.profile.as_deref(), Some("prod"));
    assert_eq!(config.poll_interval_seconds, 30);
    assert_eq!(config.expected_interval_seconds, None);
    assert_eq!(config.max_history, 7);
    assert_eq!(config.lookback_periods, 2);
    let watch = WatchArgs {
        target: "s3://bucket/feed/".to_owned(),
        interval: DEFAULT_POLL_INTERVAL,
        expected_interval: Some(60),
        history_limit: DEFAULT_HISTORY_LIMIT,
        lookback: 1,
    };
    let config = watch_config(target, None, Some("eu".to_owned()), &watch);
    assert_eq!(config.id, "cli");
    assert_eq!(config.region.as_deref(), Some("eu"));
    assert_eq!(config.poll_interval_seconds, 30);
    assert_eq!(config.expected_interval_seconds, Some(60));
    assert_eq!(config.max_history, 10_000);
}

#[test]
fn formats_bytes_for_terminal_output() {
    assert_eq!(format_bytes(999), "999 B");
    assert_eq!(format_bytes(1_048_576), "1.0 MiB");
}

#[test]
fn byte_counts_round_as_decimal_fractions_do() {
    let reference = |bytes: u64| {
        let units = ["B", "KiB", "MiB", "GiB", "TiB"];
        let mut value = bytes as f64;
        let mut unit = 0;
        while value >= 1024.0 && unit < units.len() - 1 {
            value /= 1024.0;
            unit += 1;
        }
        if unit == 0 {
            format!("{bytes} B")
        } else {
            format!("{value:.1} {}", units[unit])
        }
    };
    for bytes in 0..200_000 {
        assert_eq!(format_bytes(bytes), reference(bytes));
    }
    // Growing steps reach every unit.
    let mut bytes: u64 = 1_000_003;
    while let Some(next) = bytes.checked_add(bytes / 7 + 1) {
        assert_eq!(format_bytes(bytes), reference(bytes));
        bytes = next;
    }
    // Beyond the whole numbers that an `f64` holds, halves appear by rounding.
    for bytes in (1 << 60) + (1 << 38) - 2_048..(1 << 60) + (1 << 38) + 2_048 {
        assert_eq!(format_bytes(bytes), reference(bytes));
    }
    assert_eq!(format_bytes(1 << 63), "8388608.0 TiB");
}

#[test]
fn escapes_terminal_control_characters_in_object_keys() {
    assert_eq!(
        terminal_text("feed/ok\n\u{1b}[31m"),
        "feed/ok\\n\\u{1b}[31m"
    );
}

#[test]
fn every_control_character_is_escaped_as_by_the_standard_library() {
    for code in 0..0x3000u32 {
        if let Some(character) = char::from_u32(code) {
            let text = format!("a{character}b");
            let expected: String = text
                .chars()
                .map(|c| {
                    if c.is_control() {
                        c.escape_default().to_string()
                    } else {
                        c.to_string()
                    }
                })
                .collect();
            assert_eq!(terminal_text(&text), expected);
        }
    }
}

#[test]
fn titles_start_in_upper_case() {
    assert_eq!(title_case("healthy"), "Healthy");
    assert_eq!(title_case(""), "");
    assert_eq!(title_case("\u{df}x"), "SSx");
}

#[test]
fn object_tables_are_aligned() {
    assert_eq!(print_objects(&vec![]), ["No objects found."]);
    let lines = print_objects(&vec![object("feed/\ta", 1_700_000_000)]);
    assert_eq!(
        lines[0],
        format!("{:<24} {:>10}  KEY", "LAST MODIFIED (UTC)", "SIZE")
    );
    assert_eq!(
        lines[1],
        format!(
            "{:<24} {:>10}  {}",
            "2023-11-14 22:13:20", "2.0 KiB", "feed/\\ta"
        )
    );
}

#[test]
fn arrivals_are_one_line_each() {
    let arrived = object("feed/a", 1_700_000_000);
    assert_eq!(print_arrival(&arrived, None), "22:13:20     2.0 KiB  feed/a");
    assert_eq!(
        print_arrival(&arrived, Some("5.0s")),
        "22:13:20     2.0 KiB  feed/a  \u{394} 5.0s"
    );
}

#[test]
fn statistics_are_laid_out_for_reading() {
    let mut history = RollingHistory::new(4).unwrap();
    history.upsert(object("a", 0));
    let statistics = history.statistics_at(Timestamp::new(100, 0).unwrap(), Some(10));
    let lines = print_statistics(
        &statistics,
        &DurationTexts {
            mean_interval: None,
            median_interval: None,
            p95_interval: None,
            largest_gap: None,
            current_gap: Some("1m 40s".to_owned()),
            expected_interval: Some("10.0s".to_owned()),
        },
    );
    assert_eq!(
        lines,
        [
            "Objects          1",
            "Last arrival     1970-01-01T00:00:00Z",
            "Mean interval    \u{2014}",
            "Median interval  \u{2014}",
            "P95 interval     \u{2014}",
            "Largest gap      \u{2014}",
            "Current gap      1m 40s",
            "Health           Late",
            "Expected cadence 10.0s (Configured)",
        ]
    );
    let empty = RollingHistory::new(1).unwrap();
    let lines = print_statistics(
        &empty.statistics_at(Timestamp::new(100, 0).unwrap(), None),
        &DurationTexts {
            mean_interval: None,
            median_interval: None,
            p95_interval: None,
            largest_gap: None,
            current_gap: None,
            expected_interval: None,
        },
    );
    assert_eq!(lines[0], "Objects          0");
    assert_eq!(lines[1], "Last arrival     \u{2014}");
    assert_eq!(lines[7], "Health           Unknown");
    assert_eq!(lines.len(), 8);
}
