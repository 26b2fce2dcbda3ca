//! General properties on concrete values.

use codexusage::calendar::{parse_timestamp, parse_timezone, Timezone};
use codexusage::keyed::{text_order, TextMap, TextOrder};
use codexusage::limits_view::format_limit_bar;
use codexusage::model::{
    billable_tokens, breakdown_usage, explicit_usage, CacheReadMode, CachedInputCostMode,
    ModelBreakdown, NumberFormat, ReportKind, ReportOutput, SessionRow, Totals, UsagePresentation,
    UsageTotals, UsdAmount,
};
use codexusage::number::{format_u64, format_u64_with};
use codexusage::paths::SessionPath;
use codexusage::report::ReportBuilder;
use codexusage::report_view::render_session_report;
use codexusage::room::{checked_sum, merge_has_room, summary_has_room};
use codexusage::session_log::{
    scan_session_file_from_checkpoint, SessionLine, SessionParseCheckpoint, TokenUsageEvent,
};
use codexusage::summary::{merge_group_summary, push_share, remove_share, GroupSummary};
use codexusage::table::{BorderStyle, TableRenderConfig, TableStyle};
use codexusage::targets::SessionScanTarget;
use codexusage::text::parse_u64;

fn utc() -> Timezone {
    parse_timezone("UTC").expect("timezone")
}

fn usage(input: u64, cached_input: u64, output: u64) -> UsageTotals {
    UsageTotals {
        input,
        cached_input,
        output,
        reasoning_output: 1,
        total: input + output,
    }
}

fn event(session: &str, timestamp: &str, usage: UsageTotals) -> TokenUsageEvent {
    TokenUsageEvent {
        session_key: session.to_string(),
        session_id: session.to_string(),
        timestamp_utc: parse_timestamp(timestamp).expect("timestamp"),
        model: "gpt-5".to_string(),
        is_fallback_model: false,
        usage,
    }
}

#[test]
fn excluding_cache_reads_twice_changes_nothing_more() {
    let once = usage(50, 15, 10).with_cache_read_mode(CacheReadMode::Exclude);
    assert_eq!(once.with_cache_read_mode(CacheReadMode::Exclude), once);
    for mode in [CachedInputCostMode::Priced, CachedInputCostMode::Free] {
        let billed = billable_tokens(&once, mode);
        let free = billable_tokens(&usage(50, 15, 10), CachedInputCostMode::Free);
        assert_eq!(billed, free);
    }
}

#[test]
fn input_is_charged_once() {
    for cached in [0, 15, 50, 60] {
        let billed = billable_tokens(&usage(50, cached, 10), CachedInputCostMode::Priced);
        assert_eq!(billed.input + billed.cached_input, 50);
        assert_eq!(billed.output, 10);
        let free = billable_tokens(&usage(50, cached, 10), CachedInputCostMode::Free);
        assert_eq!(free.cached_input, 0);
        assert_eq!(free.input, billed.input);
    }
}

#[test]
fn explicit_and_fallback_usage_add_up() {
    let breakdown = ModelBreakdown {
        input_tokens: 100,
        cached_input_tokens: 10,
        output_tokens: 50,
        reasoning_output_tokens: 4,
        total_tokens: 150,
        fallback_usage: usage(20, 5, 10),
        is_fallback: true,
        ..ModelBreakdown::default()
    };
    let mut sum = explicit_usage(&breakdown);
    sum.add(&breakdown.fallback_usage);
    assert_eq!(sum, breakdown_usage(&breakdown));
}

#[test]
fn numbers_keep_their_digits() {
    for value in [0, 7, 999, 1_000, 12_345, 987_654_321, u64::MAX] {
        let grouped = format_u64(value);
        assert_eq!(grouped.replace(',', ""), value.to_string());
        assert_eq!(parse_u64(&grouped.replace(',', "")), Some(value));
    }
    assert_eq!(parse_u64("18446744073709551616"), None);
    assert_eq!(parse_u64(""), None);
    assert_eq!(parse_u64("+"), None);
}

#[test]
fn short_numbers_show_at_most_three_digits() {
    for value in [1_000, 1_005, 12_349, 999_499, 1_234_567, 55_555_555_555] {
        let shown = format_u64_with(value, NumberFormat::Short);
        let digits = shown.chars().filter(char::is_ascii_digit).count();
        assert!(digits <= 3);
    }
}

fn shown_count(text: &str) -> u128 {
    let (figure, unit) = match text.strip_suffix(['K', 'M', 'B', 'T']) {
        Some(figure) => (
            figure,
            match text.as_bytes()[text.len() - 1] {
                b'K' => 1_000,
                b'M' => 1_000_000,
                b'B' => 1_000_000_000,
                _ => 1_000_000_000_000,
            },
        ),
        None => return text.parse().expect("plain count"),
    };
    let (whole, fraction) = figure.split_once('.').unwrap_or((figure, "0"));
    assert!(!figure.ends_with('.') && (!figure.contains('.') || !figure.ends_with('0')));
    let scale: u128 = unit / 10u128.pow(fraction.len() as u32);
    whole.parse::<u128>().expect("whole") * unit + fraction.parse::<u128>().expect("part") * scale
}

#[test]
fn short_numbers_stay_close_and_in_order() {
    let mut values = vec![0, 999, 1_000, 1_004, 1_005, 9_994, 9_995, 9_999];
    for power in 4..=19u32 {
        let at = 10u64.pow(power);
        let half = at / 2_000;
        values.extend([at - half - 1, at - half, at - 1, at, at + 1, at + at / 3]);
    }
    values.push(u64::MAX);
    values.sort_unstable();
    let mut before: u128 = 0;
    for value in values {
        let shown = shown_count(&format_u64_with(value, NumberFormat::Short));
        assert!(shown.abs_diff(value as u128) * 200 <= value as u128);
        assert!(before <= shown);
        before = shown;
    }
    assert_eq!(format_u64_with(999_499, NumberFormat::Short), "999K");
    assert_eq!(format_u64_with(999_500, NumberFormat::Short), "1M");
}

#[test]
fn removing_a_share_undoes_adding_it() {
    let mut summary = GroupSummary::new();
    push_share(&mut summary, "a", &usage(5, 1, 2), false);
    let before = format!("{:?}", summary.totals);
    assert!(summary_has_room(&summary, "b", &usage(9, 0, 3), true));
    push_share(&mut summary, "b", &usage(9, 0, 3), true);
    assert_eq!(summary.totals.input, 14);
    assert_eq!(
        summary.models.get("b").map(|model| model.fallback_usage),
        Some(usage(9, 0, 3))
    );
    remove_share(&mut summary, "b", &usage(9, 0, 3), true);
    assert_eq!(format!("{:?}", summary.totals), before);
    let b = summary.models.get("b").expect("model");
    assert!(!breakdown_usage(b).has_usage());
    assert!(!b.fallback_usage.has_usage());
}

#[test]
fn merged_summaries_hold_both() {
    let mut one = GroupSummary::new();
    push_share(&mut one, "a", &usage(5, 1, 2), false);
    let mut other = GroupSummary::new();
    push_share(&mut other, "a", &usage(7, 2, 3), true);
    push_share(&mut other, "b", &usage(1, 0, 1), false);
    assert!(merge_has_room(&one, &other));
    merge_group_summary(&mut one, &other);
    assert_eq!(one.totals.input, 13);
    let a = one.models.get("a").expect("model");
    assert_eq!(a.input_tokens, 12);
    assert_eq!(a.fallback_usage, usage(7, 2, 3));
    assert!(a.is_fallback);
}

#[test]
fn sums_are_checked() {
    assert_eq!(
        checked_sum(&usage(1, 0, 1), &usage(2, 1, 3)).map(|sum| sum.total),
        Some(7)
    );
    let full = UsageTotals {
        input: u64::MAX,
        ..UsageTotals::default()
    };
    assert_eq!(checked_sum(&full, &usage(1, 0, 0)), None);
}

#[test]
fn lines_without_markers_are_skipped() {
    let line = |text: &str| SessionLine {
        text: text.to_string(),
        bytes_read: text.len(),
        entry: None,
    };
    let (checkpoint, events) = scan_session_file_from_checkpoint(
        &vec![line("{\"type\":\"response_item\"}\n"), line("  \n"), line("noise\n")],
        "s",
        &SessionParseCheckpoint::default(),
    )
    .expect("scan");
    assert!(events.is_empty());
    assert_eq!(checkpoint.offset, 25 + 3 + 6);
    assert_eq!(checkpoint.current_model, None);
}

#[test]
fn bars_have_one_width() {
    for filled in 0..=20u8 {
        for borders in [BorderStyle::Ascii, BorderStyle::Unicode] {
            assert_eq!(format_limit_bar(filled, borders).chars().count(), 20);
        }
    }
}

#[test]
fn grand_totals_count_every_covered_event() {
    let events = [
        event("a", "2026-01-02T10:00:00Z", usage(5, 1, 2)),
        event("b", "2026-01-03T10:00:00Z", usage(7, 0, 3)),
        event("a", "2026-02-03T10:00:00Z", usage(11, 4, 1)),
    ];
    for kind in [ReportKind::Daily, ReportKind::Monthly, ReportKind::Session] {
        let mut builder = ReportBuilder::new(kind, utc(), None, None);
        for event in &events {
            builder.observe(event);
        }
        let output = builder.finish(
            UsagePresentation::new(CachedInputCostMode::Priced, CacheReadMode::Include),
            Vec::new(),
        );
        let totals = match output {
            ReportOutput::Daily { totals, .. }
            | ReportOutput::Monthly { totals, .. }
            | ReportOutput::Session { totals, .. } => totals,
        };
        assert_eq!(totals.input_tokens, 23);
        assert_eq!(totals.cached_input_tokens, 5);
        assert_eq!(totals.output_tokens, 6);
        assert_eq!(totals.total_tokens, 29);
    }
}

#[test]
fn session_tables_are_rectangular() {
    let row = |directory: &str, file: &str, tokens: u64| {
        let mut models = TextMap::new();
        models.insert(
            "gpt-5".to_string(),
            ModelBreakdown {
                input_tokens: tokens,
                total_tokens: tokens,
                ..ModelBreakdown::default()
            },
        );
        SessionRow {
            session_id: format!("{directory}/{file}"),
            directory: directory.to_string(),
            session_file: file.to_string(),
            last_activity: "2025-09-11T18:00:00.000Z".to_string(),
            input_tokens: tokens,
            cached_input_tokens: 0,
            output_tokens: 0,
            reasoning_output_tokens: 0,
            total_tokens: tokens,
            cost_usd: UsdAmount {
                cents: tokens,
                positive: true,
            },
            models,
        }
    };
    for mode in [CacheReadMode::Include, CacheReadMode::Exclude] {
        let rendered = render_session_report(
            &vec![row("team", "one", 7), row("", "a-longer-name", 1_234_567)],
            &Totals::default(),
            TableRenderConfig {
                style: TableStyle::Plain,
                borders: BorderStyle::Unicode,
                number_format: NumberFormat::Full,
            },
            mode,
        );
        let widths = rendered
            .lines()
            .skip(2)
            .map(|line| line.chars().count())
            .collect::<Vec<_>>();
        assert!(widths.len() > 6);
        assert!(widths.iter().all(|width| *width == widths[0]));
        assert!(rendered.contains("│ -  "));
    }
}

#[test]
fn preference_is_transitive() {
    let target = |bytes: u64, modified: Option<i128>, name: &str| SessionScanTarget {
        session_id: "s".to_string(),
        path: SessionPath {
            absolute: true,
            parts: vec![name.to_string()],
        },
        bytes,
        modified,
    };
    let all = [
        target(1, None, "a"),
        target(1, Some(1), "b"),
        target(1, Some(2), "b"),
        target(2, None, "a"),
        target(2, None, "c"),
    ];
    for a in &all {
        assert!(!a.is_preferred_over(a));
        for b in &all {
            for c in &all {
                if a.is_preferred_over(b) && b.is_preferred_over(c) {
                    assert!(a.is_preferred_over(c));
                }
            }
        }
    }
}

#[test]
fn texts_are_ordered_and_mapped() {
    assert_eq!(text_order("a", "b"), TextOrder::Before);
    assert_eq!(text_order("ab", "a"), TextOrder::After);
    assert_eq!(text_order("é", "é"), TextOrder::Same);
    let mut map = TextMap::new();
    map.insert("b".to_string(), 1u8);
    map.insert("a".to_string(), 2u8);
    map.insert("b".to_string(), 3u8);
    assert_eq!(map.get("b"), Some(&3));
    assert!(map.contains_key("a"));
    assert_eq!(map.entries[0].0, "a");
    assert_eq!(map.remove("a"), Some(2));
    assert_eq!(map.remove("a"), None);
    assert_eq!(map.entries.len(), 1);
}
