//! Timezones, calendar days and date filters.

use chrono::{Datelike, NaiveDate};
use codexusage::calendar::{
    default_timezone_name, elapsed_nanos, first_valid_local_timestamp, normalize_filter_date,
    normalize_timezone_name, parse_timestamp, parse_timezone, resolve_local_midnight_utc,
    resolve_report_date_filters, timezone_from_etc_timezone_contents,
    timezone_from_localtime_target, watch_window_start_utc, Timestamp, Timezone,
};
use codexusage::model::ReportKind;

fn day(year: i32, month: u32, day: u32) -> i32 {
    NaiveDate::from_ymd_opt(year, month, day)
        .expect("naive date")
        .num_days_from_ce()
}

fn at(text: &str) -> Timestamp {
    parse_timestamp(text).expect("timestamp")
}

fn zone(name: &str) -> Timezone {
    parse_timezone(name).expect("timezone")
}

#[test]
fn app_normalize_filter_date_accepts_supported_formats() {
    assert_eq!(
        normalize_filter_date("2025-09-11").expect("date"),
        day(2025, 9, 11)
    );
    assert_eq!(
        normalize_filter_date("20250912").expect("date"),
        day(2025, 9, 12)
    );
    assert!(normalize_filter_date("2025/09/12").is_err());
}

#[test]
fn behavior_checks_normalize_filter_date_accepts_supported_formats() {
    assert_eq!(
        normalize_filter_date("2025-09-11").expect("date"),
        day(2025, 9, 11)
    );
    assert_eq!(
        normalize_filter_date("20250912").expect("date"),
        day(2025, 9, 12)
    );
    assert!(normalize_filter_date("2025/09/12").is_err());
}

#[test]
fn app_parse_timezone_rejects_invalid_names() {
    assert_eq!(
        parse_timezone("Europe/Warsaw").expect("timezone").name(),
        "Europe/Warsaw"
    );
    assert!(parse_timezone("Not/A_Timezone").is_err());
}

#[test]
fn behavior_checks_parse_timezone_rejects_invalid_names() {
    assert_eq!(
        parse_timezone("Europe/Warsaw").expect("timezone").name(),
        "Europe/Warsaw"
    );
    assert!(parse_timezone("Not/A_Timezone").is_err());
}

#[test]
fn app_normalize_timezone_name_accepts_valid_sources() {
    assert_eq!(
        normalize_timezone_name(":Europe/Warsaw").as_deref(),
        Some("Europe/Warsaw")
    );
    assert!(normalize_timezone_name("Not/A_Timezone").is_none());
}

#[test]
fn behavior_checks_normalize_timezone_name_accepts_valid_sources() {
    assert_eq!(
        normalize_timezone_name(":Europe/Warsaw").as_deref(),
        Some("Europe/Warsaw")
    );
    assert!(normalize_timezone_name("Not/A_Timezone").is_none());
}

#[test]
fn app_timezone_source_helpers_extract_valid_names() {
    assert_eq!(
        timezone_from_etc_timezone_contents("Europe/Warsaw\n").as_deref(),
        Some("Europe/Warsaw")
    );
    assert_eq!(
        timezone_from_localtime_target("/usr/share/zoneinfo/Europe/Warsaw").as_deref(),
        Some("Europe/Warsaw")
    );
    assert_eq!(
        timezone_from_localtime_target("../usr/share/zoneinfo/America/New_York").as_deref(),
        Some("America/New_York")
    );
}

#[test]
fn behavior_checks_timezone_source_helpers_extract_valid_names() {
    assert_eq!(
        timezone_from_etc_timezone_contents("Europe/Warsaw\n").as_deref(),
        Some("Europe/Warsaw")
    );
    assert_eq!(
        timezone_from_localtime_target("/usr/share/zoneinfo/Europe/Warsaw").as_deref(),
        Some("Europe/Warsaw")
    );
    assert_eq!(
        timezone_from_localtime_target("../usr/share/zoneinfo/America/New_York").as_deref(),
        Some("America/New_York")
    );
}

#[test]
fn app_resolve_local_midnight_utc_handles_midnight_dst_skip() {
    let day = day(2024, 4, 26);
    let resolved = resolve_local_midnight_utc(&zone("Africa/Cairo"), day).expect("start");

    assert_eq!(resolved, at("2024-04-25T22:00:00Z"));
}

#[test]
fn behavior_checks_resolve_local_midnight_utc_handles_midnight_dst_skip() {
    let day = day(2024, 4, 26);
    let resolved = resolve_local_midnight_utc(&zone("Africa/Cairo"), day).expect("start");

    assert_eq!(resolved, at("2024-04-25T22:00:00Z"));
}

#[test]
fn app_effective_filters_reject_last_days_with_since() {
    let timezone = zone("UTC");
    let now_utc = at("2025-09-11T12:00:00+00:00");
    let error = resolve_report_date_filters(
        ReportKind::Daily,
        Some(7),
        Some("2025-09-10"),
        None,
        &timezone,
        now_utc,
    )
    .expect_err("conflicting date filters should fail");

    assert!(error.contains("last_days"));
    assert!(error.contains("since/until"));
}

#[test]
fn behavior_checks_effective_filters_reject_last_days_with_since() {
    let timezone = zone("UTC");
    let now_utc = at("2025-09-11T12:00:00+00:00");
    let error = resolve_report_date_filters(
        ReportKind::Daily,
        Some(7),
        Some("2025-09-10"),
        None,
        &timezone,
        now_utc,
    )
    .expect_err("conflicting date filters should fail");

    assert!(error.contains("last_days"));
    assert!(error.contains("since/until"));
}

#[test]
fn app_effective_filters_reject_last_days_with_until() {
    let timezone = zone("UTC");
    let now_utc = at("2025-09-11T12:00:00+00:00");
    let error = resolve_report_date_filters(
        ReportKind::Daily,
        Some(7),
        None,
        Some("2025-09-12"),
        &timezone,
        now_utc,
    )
    .expect_err("conflicting date filters should fail");

    assert!(error.contains("last_days"));
    assert!(error.contains("since/until"));
}

#[test]
fn behavior_checks_effective_filters_reject_last_days_with_until() {
    let timezone = zone("UTC");
    let now_utc = at("2025-09-11T12:00:00+00:00");
    let error = resolve_report_date_filters(
        ReportKind::Daily,
        Some(7),
        None,
        Some("2025-09-12"),
        &timezone,
        now_utc,
    )
    .expect_err("conflicting date filters should fail");

    assert!(error.contains("last_days"));
    assert!(error.contains("since/until"));
}

#[test]
fn app_effective_last_days_window_uses_selected_timezone_today() {
    let now_utc = at("2025-09-11T22:30:00+00:00");
    let timezone = zone("Europe/Warsaw");
    let (since, until) = resolve_report_date_filters(
        ReportKind::Daily,
        Some(2),
        None,
        None,
        &timezone,
        now_utc,
    )
    .expect("filters");

    assert_eq!(since, Some(day(2025, 9, 11)));
    assert_eq!(until, Some(day(2025, 9, 12)));
}

#[test]
fn behavior_checks_effective_last_days_window_uses_selected_timezone_today() {
    let now_utc = at("2025-09-11T22:30:00+00:00");
    let timezone = zone("Europe/Warsaw");
    let (since, until) = resolve_report_date_filters(
        ReportKind::Daily,
        Some(2),
        None,
        None,
        &timezone,
        now_utc,
    )
    .expect("filters");

    assert_eq!(since, Some(day(2025, 9, 11)));
    assert_eq!(until, Some(day(2025, 9, 12)));
}

#[test]
fn filters_without_last_days_are_read_as_given() {
    let timezone = zone("UTC");
    let now_utc = at("2025-09-11T12:00:00Z");
    assert_eq!(
        resolve_report_date_filters(
            ReportKind::Monthly,
            None,
            Some("20250901"),
            Some("2025-09-30"),
            &timezone,
            now_utc,
        ),
        Ok((Some(day(2025, 9, 1)), Some(day(2025, 9, 30))))
    );
    assert_eq!(
        resolve_report_date_filters(ReportKind::Session, None, None, None, &timezone, now_utc),
        Ok((None, None))
    );
    assert!(
        resolve_report_date_filters(
            ReportKind::Daily,
            None,
            Some("2025-02-30"),
            None,
            &timezone,
            now_utc,
        )
        .is_err()
    );
}

#[test]
fn last_days_belong_to_daily_reports() {
    let timezone = zone("UTC");
    let now_utc = at("2025-09-11T12:00:00Z");
    for kind in [ReportKind::Monthly, ReportKind::Session] {
        assert!(
            resolve_report_date_filters(kind, Some(7), None, None, &timezone, now_utc).is_err()
        );
    }
}

#[test]
fn date_errors_name_the_value() {
    assert_eq!(
        normalize_filter_date("2025/09/12"),
        Err("invalid date format 2025/09/12; expected YYYYMMDD or YYYY-MM-DD".to_string())
    );
    assert_eq!(
        normalize_filter_date("2025-02-30"),
        Err("failed to parse date 2025-02-30".to_string())
    );
    assert_eq!(normalize_filter_date(" 2024-02-29 "), Ok(day(2024, 2, 29)));
}

#[test]
fn timezone_sources_are_asked_in_order() {
    let variable = Some(":Europe/Warsaw".to_string());
    let contents = Some("# comment\nAsia/Tokyo\n".to_string());
    let target = Some("/usr/share/zoneinfo/America/New_York".to_string());
    assert_eq!(
        default_timezone_name(&variable, &contents, &target),
        "Europe/Warsaw"
    );
    assert_eq!(
        default_timezone_name(&Some("nowhere".to_string()), &contents, &target),
        "Asia/Tokyo"
    );
    assert_eq!(default_timezone_name(&None, &None, &target), "America/New_York");
    assert_eq!(default_timezone_name(&None, &None, &None), "UTC");
}

#[test]
fn instants_are_read_with_their_offset() {
    assert_eq!(
        parse_timestamp("1970-01-01T01:00:00.250+01:00"),
        Some(Timestamp {
            seconds: 0,
            nanos: 250_000_000,
        })
    );
    assert_eq!(parse_timestamp("bad-timestamp"), None);
    assert!(at("2026-01-02T00:00:00Z").is_before(&at("2026-01-02T00:00:01Z")));
    assert!(!at("2026-01-02T00:00:01Z").is_before(&at("2026-01-02T00:00:01Z")));
    assert_eq!(
        elapsed_nanos(at("2026-01-02T00:00:00Z"), at("2026-01-02T00:00:01.5Z")),
        1_500_000_000
    );
    assert_eq!(
        elapsed_nanos(at("2026-01-02T00:00:01Z"), at("2026-01-02T00:00:00Z")),
        0
    );
}

#[test]
fn timezones_shift_days_and_clocks() {
    let warsaw = zone("Europe/Warsaw");
    let evening = at("2025-09-11T22:30:05Z");
    assert_eq!(warsaw.local_day(evening), day(2025, 9, 12));
    assert_eq!(zone("UTC").local_day(evening), day(2025, 9, 11));
    assert_eq!(warsaw.day_of(evening), "2025-09-12");
    assert_eq!(warsaw.clock_text(evening), "00:30:05");
    assert_eq!(warsaw.rfc3339_text(evening), "2025-09-12T00:30:05.000+02:00");
    assert_eq!(
        zone("UTC").rfc3339_text(evening),
        "2025-09-11T22:30:05.000Z"
    );
}

#[test]
fn watch_windows_end_at_midnight() {
    let utc = zone("UTC");
    assert_eq!(
        watch_window_start_utc(&utc, at("2026-01-02T00:30:00Z")),
        Ok(at("2026-01-02T00:00:00Z"))
    );
    assert_eq!(
        watch_window_start_utc(&utc, at("2026-01-02T12:00:00Z")),
        Ok(at("2026-01-02T11:00:00Z"))
    );
}

#[test]
fn first_instants_follow_a_skipped_midnight() {
    assert_eq!(
        first_valid_local_timestamp(&zone("Africa/Cairo"), day(2024, 4, 26)),
        Some(at("2024-04-25T22:00:00Z"))
    );
    assert_eq!(
        first_valid_local_timestamp(&zone("UTC"), day(2024, 4, 26)),
        Some(at("2024-04-26T00:00:00Z"))
    );
}

#[test]
fn the_calendar_has_bounds() {
    let instant = |seconds: i64, nanos: u32| Timestamp { seconds, nanos };
    assert!(instant(8_000_000_000_000, 0).is_valid());
    assert!(!instant(8_000_000_000_001, 0).is_valid());
    assert!(instant(-8_000_000_000_000, 999_999_999).is_valid());
    assert!(!instant(-8_000_000_000_001, 0).is_valid());
    assert!(instant(59, 1_500_000_000).is_valid());
    assert!(instant(-1, 1_500_000_000).is_valid());
    assert!(!instant(60, 1_500_000_000).is_valid());
    assert!(!instant(59, 2_000_000_000).is_valid());
}
