//! Command-line decisions and the pace of watch mode.

use codexusage::cli::{
    cli_scan_behavior, command_task, parse_interval_seconds, validate_watch_flags,
    CacheCostCliOptions, Command, CommandTask, ScanIndexCliOptions,
};
use codexusage::model::{is_false, CacheReadMode, CachedInputCostMode, ReportKind};
use codexusage::snapshot::{display_window_minutes, remaining_watch_sleep, scale_usage_per_hour};
use codexusage::watch_events::WatchChangeSet;
use codexusage::watch_loop::{
    note_new_root, require_screen_clear, require_terminal, supports_watch_screen_clear,
    supports_watch_screen_clear_with_platform, watch_pricing_refresh_due,
    WatchLoop,
};
use std::time::Duration;

fn nanos(duration: Duration) -> u128 {
    duration.as_nanos()
}

#[test]
fn app_validate_watch_flags_rejects_json_and_date_filters() {
    assert!(validate_watch_flags(false, None, None, None).is_ok());
    assert!(
        validate_watch_flags(true, None, None, None)
            .expect_err("json should fail")
            .contains("--json")
    );
    assert!(
        validate_watch_flags(false, Some("2026-01-01"), None, Some(1))
            .expect_err("date filters should fail")
            .contains("--since")
    );
}

#[test]
fn behavior_checks_validate_watch_flags_rejects_json_and_date_filters() {
    assert!(validate_watch_flags(false, None, None, None).is_ok());
    assert!(
        validate_watch_flags(true, None, None, None)
            .expect_err("json should fail")
            .contains("--json")
    );
    assert!(
        validate_watch_flags(false, Some("2026-01-01"), None, Some(1))
            .expect_err("date filters should fail")
            .contains("--since")
    );
}

#[test]
fn app_parse_interval_and_report_kind_helpers_cover_cli_routing_paths() {
    assert_eq!(
        parse_interval_seconds("5").expect("interval"),
        nanos(Duration::from_secs(5))
    );
    assert!(
        parse_interval_seconds("0")
            .expect_err("zero should fail")
            .contains("greater than 0")
    );
    assert!(
        parse_interval_seconds("abc")
            .expect_err("non-integer should fail")
            .contains("positive integer")
    );
    assert_eq!(ReportKind::from_command(&Command::Daily), ReportKind::Daily);
    assert_eq!(
        ReportKind::from_command(&Command::Monthly),
        ReportKind::Monthly
    );
    assert_eq!(
        ReportKind::from_command(&Command::Session),
        ReportKind::Session
    );
    assert!(is_false(&false));
    assert!(!is_false(&true));
}

#[test]
fn behavior_checks_parse_interval_and_report_kind_helpers_cover_cli_routing_paths() {
    assert_eq!(
        parse_interval_seconds("5").expect("interval"),
        nanos(Duration::from_secs(5))
    );
    assert!(
        parse_interval_seconds("0")
            .expect_err("zero should fail")
            .contains("greater than 0")
    );
    assert!(
        parse_interval_seconds("abc")
            .expect_err("non-integer should fail")
            .contains("positive integer")
    );
    assert_eq!(ReportKind::from_command(&Command::Daily), ReportKind::Daily);
    assert_eq!(
        ReportKind::from_command(&Command::Monthly),
        ReportKind::Monthly
    );
    assert_eq!(
        ReportKind::from_command(&Command::Session),
        ReportKind::Session
    );
    assert!(is_false(&false));
    assert!(!is_false(&true));
}

#[test]
fn app_supports_watch_screen_clear_wrapper_matches_term_contract() {
    assert!(!supports_watch_screen_clear(Some("dumb"), None));
    assert!(supports_watch_screen_clear(Some("xterm-256color"), None));
}

#[test]
fn behavior_checks_supports_watch_screen_clear_wrapper_matches_term_contract() {
    assert!(!supports_watch_screen_clear(Some("dumb"), None));
    assert!(supports_watch_screen_clear(Some("xterm-256color"), None));
}

#[test]
fn app_supports_watch_screen_clear_rejects_dumb_term() {
    assert!(supports_watch_screen_clear_with_platform(
        Some("xterm-256color"),
        false,
        false
    ));
    assert!(!supports_watch_screen_clear_with_platform(
        Some("dumb"),
        false,
        false
    ));
    assert!(supports_watch_screen_clear_with_platform(
        None, false, false
    ));
}

#[test]
fn behavior_checks_supports_watch_screen_clear_rejects_dumb_term() {
    assert!(supports_watch_screen_clear_with_platform(
        Some("xterm-256color"),
        false,
        false
    ));
    assert!(!supports_watch_screen_clear_with_platform(
        Some("dumb"),
        false,
        false
    ));
    assert!(supports_watch_screen_clear_with_platform(
        None, false, false
    ));
}

#[test]
fn app_supports_watch_screen_clear_accepts_windows_console_probe() {
    assert!(!supports_watch_screen_clear_with_platform(
        None, true, false
    ));
    assert!(supports_watch_screen_clear_with_platform(
        Some("xterm-256color"),
        true,
        false
    ));
    assert!(supports_watch_screen_clear_with_platform(None, true, true));
}

#[test]
fn behavior_checks_supports_watch_screen_clear_accepts_windows_console_probe() {
    assert!(!supports_watch_screen_clear_with_platform(
        None, true, false
    ));
    assert!(supports_watch_screen_clear_with_platform(
        Some("xterm-256color"),
        true,
        false
    ));
    assert!(supports_watch_screen_clear_with_platform(None, true, true));
}

#[test]
fn app_display_window_minutes_rounds_up_partial_minutes() {
    assert_eq!(display_window_minutes(nanos(Duration::from_secs(0))), 0);
    assert_eq!(display_window_minutes(nanos(Duration::from_secs(1))), 1);
    assert_eq!(display_window_minutes(nanos(Duration::from_secs(59))), 1);
    assert_eq!(display_window_minutes(nanos(Duration::from_secs(61))), 2);
}

#[test]
fn behavior_checks_display_window_minutes_rounds_up_partial_minutes() {
    assert_eq!(display_window_minutes(nanos(Duration::from_secs(0))), 0);
    assert_eq!(display_window_minutes(nanos(Duration::from_secs(1))), 1);
    assert_eq!(display_window_minutes(nanos(Duration::from_secs(59))), 1);
    assert_eq!(display_window_minutes(nanos(Duration::from_secs(61))), 2);
}

#[test]
fn app_remaining_watch_sleep_subtracts_elapsed_work() {
    assert_eq!(
        remaining_watch_sleep(nanos(Duration::from_secs(5)), nanos(Duration::from_secs(2))),
        nanos(Duration::from_secs(3))
    );
    assert_eq!(
        remaining_watch_sleep(nanos(Duration::from_secs(5)), nanos(Duration::from_secs(7))),
        nanos(Duration::from_secs(0))
    );
}

#[test]
fn behavior_checks_remaining_watch_sleep_subtracts_elapsed_work() {
    assert_eq!(
        remaining_watch_sleep(nanos(Duration::from_secs(5)), nanos(Duration::from_secs(2))),
        nanos(Duration::from_secs(3))
    );
    assert_eq!(
        remaining_watch_sleep(nanos(Duration::from_secs(5)), nanos(Duration::from_secs(7))),
        nanos(Duration::from_secs(0))
    );
}

#[test]
fn app_scale_usage_per_hour_preserves_partial_second_windows() {
    assert_eq!(
        scale_usage_per_hour(2, nanos(Duration::from_millis(500))),
        14_400
    );
    assert_eq!(
        scale_usage_per_hour(1, nanos(Duration::from_millis(250))),
        14_400
    );
}

#[test]
fn behavior_checks_scale_usage_per_hour_preserves_partial_second_windows() {
    assert_eq!(
        scale_usage_per_hour(2, nanos(Duration::from_millis(500))),
        14_400
    );
    assert_eq!(
        scale_usage_per_hour(1, nanos(Duration::from_millis(250))),
        14_400
    );
}

#[test]
fn app_watch_pricing_refresh_due_uses_cache_age_and_retry_backoff() {
    let now: i128 = Duration::from_secs(100 * 3_600).as_nanos() as i128;
    let max_age: i128 = Duration::from_secs(24 * 60 * 60).as_nanos() as i128;
    let fresh_refreshed_at: i128 = Duration::from_secs(77 * 3_600).as_nanos() as i128;
    let fresh_is_stale = now - fresh_refreshed_at > max_age;

    assert!(!watch_pricing_refresh_due(fresh_is_stale, now, None));

    let stale_refreshed_at: i128 = Duration::from_secs(75 * 3_600).as_nanos() as i128;
    let stale_is_stale = now - stale_refreshed_at > max_age;

    assert!(watch_pricing_refresh_due(stale_is_stale, now, None));
    assert!(!watch_pricing_refresh_due(
        stale_is_stale,
        now,
        Some(now - Duration::from_secs(4 * 60).as_nanos() as i128),
    ));
}

#[test]
fn behavior_checks_watch_pricing_refresh_due_uses_cache_age_and_retry_backoff() {
    let now: i128 = Duration::from_secs(100 * 3_600).as_nanos() as i128;
    let max_age: i128 = Duration::from_secs(24 * 60 * 60).as_nanos() as i128;
    let fresh_refreshed_at: i128 = Duration::from_secs(77 * 3_600).as_nanos() as i128;
    let fresh_is_stale = now - fresh_refreshed_at > max_age;

    assert!(!watch_pricing_refresh_due(fresh_is_stale, now, None));

    let stale_refreshed_at: i128 = Duration::from_secs(75 * 3_600).as_nanos() as i128;
    let stale_is_stale = now - stale_refreshed_at > max_age;

    assert!(watch_pricing_refresh_due(stale_is_stale, now, None));
    assert!(!watch_pricing_refresh_due(
        stale_is_stale,
        now,
        Some(now - Duration::from_secs(4 * 60).as_nanos() as i128),
    ));
}

#[test]
fn stale_prices_are_refreshed_after_the_retry_pause() {
    let now: i128 = 100 * 3_600 * 1_000_000_000;
    let minute: i128 = 60 * 1_000_000_000;
    assert!(!watch_pricing_refresh_due(false, now, None));
    assert!(watch_pricing_refresh_due(true, now, None));
    assert!(!watch_pricing_refresh_due(true, now, Some(now - 4 * minute)));
    assert!(watch_pricing_refresh_due(true, now, Some(now - 5 * minute)));
    assert!(!watch_pricing_refresh_due(true, now, Some(now + minute)));
}

#[test]
fn rates_round_to_the_nearest_token() {
    assert_eq!(scale_usage_per_hour(7, 0), 0);
    assert_eq!(scale_usage_per_hour(7, 3_600_000_000_000), 7);
    assert_eq!(scale_usage_per_hour(1, 3 * 3_600_000_000_000), 0);
    assert_eq!(scale_usage_per_hour(2, 3 * 3_600_000_000_000), 1);
    assert_eq!(scale_usage_per_hour(1, 2 * 3_600_000_000_000), 1);
    assert_eq!(scale_usage_per_hour(u64::MAX, 1), u64::MAX);
    assert!(scale_usage_per_hour(3, 59_000_000_000) <= scale_usage_per_hour(4, 59_000_000_000));
}

#[test]
fn cache_flags_choose_the_modes() {
    let options = |no_cache_cost: bool, exclude_cache_read: bool| CacheCostCliOptions {
        no_cache_cost,
        exclude_cache_read,
    };
    assert_eq!(
        options(false, false).cached_input_cost_mode(),
        CachedInputCostMode::Priced
    );
    assert_eq!(
        options(true, false).cached_input_cost_mode(),
        CachedInputCostMode::Free
    );
    assert_eq!(
        options(false, true).cached_input_cost_mode(),
        CachedInputCostMode::Free
    );
    assert_eq!(options(true, false).cache_read_mode(), CacheReadMode::Include);
    assert_eq!(options(false, true).cache_read_mode(), CacheReadMode::Exclude);
}

#[test]
fn commands_ask_for_reports_or_the_watch_screen() {
    assert_eq!(command_task(&None), CommandTask::Report(ReportKind::Daily));
    assert_eq!(
        command_task(&Some(Command::Session)),
        CommandTask::Report(ReportKind::Session)
    );
    assert_eq!(
        command_task(&Some(Command::Watch {
            interval: 5,
            per_model_burn_rate: true,
        })),
        CommandTask::Watch {
            interval: 5,
            per_model_burn_rate: true,
        }
    );
    assert!(ScanIndexCliOptions { no_scan_index: false }.config().enabled);
    assert!(!ScanIndexCliOptions { no_scan_index: true }.config().enabled);
    let behavior = cli_scan_behavior(true, false);
    assert!(behavior.show_progress);
    assert!(!behavior.simulate_slow_disk);
    assert!(supports_watch_screen_clear(None, None));
    assert!(supports_watch_screen_clear(None, Some(true)));
    assert!(!supports_watch_screen_clear(None, Some(false)));
    assert!(supports_watch_screen_clear(Some("xterm-256color"), Some(false)));
    assert!(!supports_watch_screen_clear(Some("dumb"), Some(true)));
}

#[test]
fn interval_errors_name_the_value() {
    assert_eq!(
        parse_interval_seconds("-1"),
        Err("invalid interval -1; expected a positive integer".to_string())
    );
    assert_eq!(
        parse_interval_seconds("0"),
        Err("interval must be greater than 0 seconds".to_string())
    );
    assert_eq!(parse_interval_seconds("+15"), Ok(15_000_000_000));
}

#[test]
fn watch_mode_needs_a_terminal_that_clears() {
    assert!(require_terminal(true).is_ok());
    assert_eq!(
        require_terminal(false),
        Err("watch mode requires a terminal stdout".to_string())
    );
    assert!(require_screen_clear(true).is_ok());
    assert_eq!(
        require_screen_clear(false),
        Err("watch mode requires a terminal with ANSI screen-clearing support".to_string())
    );
}

#[test]
fn price_refreshes_keep_their_distance() {
    let minute: i128 = 60 * 1_000_000_000;
    let mut state = WatchLoop::start(0, false, false, true);
    assert_eq!(state.last_pricing_refresh_attempt_at, Some(0));
    assert!(!state.attempt_pricing_refresh(true, 4 * minute));
    assert_eq!(state.last_pricing_refresh_attempt_at, Some(0));
    assert!(!state.attempt_pricing_refresh(false, 9 * minute));
    assert!(state.attempt_pricing_refresh(true, 9 * minute));
    assert!(!state.attempt_pricing_refresh(true, 13 * minute));
    assert_eq!(
        WatchLoop::start(0, true, true, true).last_pricing_refresh_attempt_at,
        None
    );
    assert_eq!(
        WatchLoop::start(7, false, true, false).last_pricing_refresh_attempt_at,
        Some(7)
    );
}

#[test]
fn new_roots_ask_for_rediscovery() {
    let mut changes = WatchChangeSet::new();
    note_new_root(&mut changes, false);
    assert!(!changes.discovery_due);
    note_new_root(&mut changes, true);
    assert!(changes.discovery_due);
    note_new_root(&mut changes, false);
    assert!(changes.discovery_due);
}
