//! The watch screen, its layout and its graph.

use codexusage::keyed::TextMap;
use codexusage::limits::{CodexLimitStatus, CodexLimitUnavailableReason};
use codexusage::model::{
    CacheReadMode, ModelBreakdown, NumberFormat, Totals, UsageTotals, UsdAmount,
};
use codexusage::snapshot::{
    BurnRateHistoryPoint, BurnRateSnapshot, WatchModelBurn, WatchSnapshot,
};
use codexusage::table::{BorderStyle, TableRenderConfig, TableStyle};
use codexusage::watch_graph::{
    append_cost_legend, burn_history_for_horizon, cost_legend_labels, cost_plot_rows,
    format_watch_graph, graph_axis_line, graph_column_glyph, graph_column_height, graph_fits,
    graph_row_filled_units, max_graph_cost, render_watch_graph, rendered_line_count,
    rendered_width, GraphScale, GraphScales, WatchGraphHorizon,
};
use codexusage::watch_layout::{watch_table_blocks, WatchBlockLayoutContext};
use codexusage::watch_screen::{
    render_watch_screen_with_limits, render_watch_screen_with_request,
    render_watch_screen_with_size, render_watch_screen_with_width, write_watch_snapshot,
    WatchRenderRequest,
};
use codexusage::watch_table::{
    active_watch_burn_columns, watch_block_headers, WatchMetricRow, WatchTableBlock,
};
use std::time::Duration;

fn usd(cost: f64) -> UsdAmount {
    let shown = format!("{cost:.2}");
    UsdAmount {
        cents: shown.replace('.', "").parse().expect("whole cents"),
        positive: cost > 0.0,
    }
}

fn seconds(count: u64) -> u128 {
    Duration::from_secs(count).as_nanos()
}

fn shown_in(number_format: NumberFormat) -> TableRenderConfig {
    TableRenderConfig {
        style: TableStyle::Plain,
        borders: BorderStyle::Ascii,
        number_format,
    }
}

/// Usage and cost of a model within the burn window.
struct Burn {
    input_tokens: u64,
    cached_input_tokens: u64,
    output_tokens: u64,
    reasoning_output_tokens: u64,
    total_tokens: u64,
    cost_usd: f64,
    fallback_usage: UsageTotals,
    fallback_cost_usd: f64,
    is_fallback: bool,
}

fn burning<const N: usize>(window: u128, models: [(String, Burn); N]) -> TextMap<WatchModelBurn> {
    let per_hour = |cost: f64| cost * 3_600.0 / Duration::from_nanos(window as u64).as_secs_f64();
    let mut map = TextMap::new();
    for (model, burn) in models {
        map.insert(
            model,
            WatchModelBurn {
                breakdown: ModelBreakdown {
                    input_tokens: burn.input_tokens,
                    cached_input_tokens: burn.cached_input_tokens,
                    output_tokens: burn.output_tokens,
                    reasoning_output_tokens: burn.reasoning_output_tokens,
                    total_tokens: burn.total_tokens,
                    cost_usd: usd(burn.cost_usd),
                    fallback_usage: burn.fallback_usage,
                    fallback_cost_usd: usd(burn.fallback_cost_usd),
                    is_fallback: burn.is_fallback,
                },
                cost_usd_per_hour: usd(per_hour(burn.cost_usd)),
                fallback_cost_usd_per_hour: usd(per_hour(burn.fallback_cost_usd)),
            },
        );
    }
    map
}

fn rank(cost: f64) -> u64 {
    if cost.is_finite() && cost > 0.0 {
        cost.to_bits()
    } else {
        0
    }
}

fn scale(max: f64) -> GraphScale {
    GraphScale {
        thresholds: (1..=32u32)
            .map(|height| rank(max * f64::from(height) / 32.0))
            .collect(),
        legend: (1..=4u32)
            .rev()
            .map(|level| usd(max * (f64::from(level) - 0.5) / 4.0))
            .collect(),
    }
}

fn scales(max: f64) -> GraphScales {
    GraphScales {
        eight_hours: scale(max),
        four_hours: scale(max),
    }
}

fn flat_scales() -> GraphScales {
    scales(0.0)
}

fn render_watch_screen(
    snapshot: &WatchSnapshot,
    config: TableRenderConfig,
    show_model_burn_rate: bool,
    cache_read_mode: CacheReadMode,
) -> String {
    render_watch_screen_with_size(
        snapshot,
        config,
        show_model_burn_rate,
        cache_read_mode,
        None,
        None,
        &flat_scales(),
    )
}

fn graph_points(values: &[f64]) -> Vec<BurnRateHistoryPoint> {
    values
        .iter()
        .enumerate()
        .map(|(index, value)| BurnRateHistoryPoint {
            end_time: format!("{index:02}:00"),
            cost_rank: rank(*value),
        })
        .collect()
}

fn watch_snapshot_with_models(models: TextMap<WatchModelBurn>) -> WatchSnapshot {
    WatchSnapshot {
        date: "2026-01-02".to_string(),
        totals: Totals {
            input_tokens: 60,
            cached_input_tokens: 15,
            output_tokens: 12,
            reasoning_output_tokens: 3,
            total_tokens: 72,
            cost_usd: usd(1.80),
        },
        burn_rate: BurnRateSnapshot {
            window_duration: seconds(30 * 60),
            window_minutes: 30,
            input_tokens_per_hour: 120,
            cached_input_tokens_per_hour: 30,
            output_tokens_per_hour: 24,
            reasoning_output_tokens_per_hour: 6,
            total_tokens_per_hour: 144,
            cost_usd_per_hour: usd(3.60),
        },
        burn_history: Vec::new(),
        per_model: models,
        missing_directories: Vec::new(),
        updated_time: "00:30:00".to_string(),
    }
}

fn watch_layout_snapshot() -> WatchSnapshot {
    WatchSnapshot {
        date: "2026-01-02".to_string(),
        totals: Totals {
            input_tokens: 3,
            cached_input_tokens: 0,
            output_tokens: 0,
            reasoning_output_tokens: 0,
            total_tokens: 3,
            cost_usd: usd(0.03),
        },
        burn_rate: BurnRateSnapshot {
            window_duration: seconds(30 * 60),
            window_minutes: 30,
            input_tokens_per_hour: 6,
            cached_input_tokens_per_hour: 0,
            output_tokens_per_hour: 0,
            reasoning_output_tokens_per_hour: 0,
            total_tokens_per_hour: 6,
            cost_usd_per_hour: usd(0.06),
        },
        burn_history: Vec::new(),
        per_model: TextMap::new(),
        missing_directories: Vec::new(),
        updated_time: "00:30:00".to_string(),
    }
}

fn watch_layout_rows() -> Vec<WatchMetricRow> {
    vec![WatchMetricRow {
        metric: "Input",
        today: "3".to_string(),
        per_model: vec!["1".to_string(), "1".to_string(), "1".to_string()],
        burn_rate: "6".to_string(),
    }]
}

#[test]
fn app_render_watch_screen_includes_totals_and_burn_rate_columns() {
    let rendered = render_watch_screen(
        &WatchSnapshot {
            date: "2026-01-02".to_string(),
            totals: Totals {
                input_tokens: 50,
                cached_input_tokens: 15,
                output_tokens: 10,
                reasoning_output_tokens: 3,
                total_tokens: 60,
                cost_usd: usd(1.25),
            },
            burn_rate: BurnRateSnapshot {
                window_duration: seconds(30 * 60),
                window_minutes: 30,
                input_tokens_per_hour: 100,
                cached_input_tokens_per_hour: 30,
                output_tokens_per_hour: 20,
                reasoning_output_tokens_per_hour: 6,
                total_tokens_per_hour: 120,
                cost_usd_per_hour: usd(2.5),
            },
            burn_history: Vec::new(),
            per_model: TextMap::new(),
            missing_directories: vec!["/tmp/missing".to_string()],
            updated_time: "00:30:00".to_string(),
        },
        shown_in(NumberFormat::Short),
        false,
        CacheReadMode::Include,
    );

    assert!(rendered.contains("Current Day Codex Usage Watch"));
    assert!(rendered.contains("Burn Rate (/h)"));
    assert!(rendered.contains("2026-01-02"));
    assert!(rendered.contains("Updated"));
    assert!(rendered.contains("00:30:00"));
    assert!(rendered.contains("Input"));
    assert!(rendered.contains("$2.50"));
    assert!(rendered.contains("/tmp/missing"));
}

#[test]
fn behavior_checks_render_watch_screen_includes_totals_and_burn_rate_columns() {
    let rendered = render_watch_screen(
        &WatchSnapshot {
            date: "2026-01-02".to_string(),
            totals: Totals {
                input_tokens: 50,
                cached_input_tokens: 15,
                output_tokens: 10,
                reasoning_output_tokens: 3,
                total_tokens: 60,
                cost_usd: usd(1.25),
            },
            burn_rate: BurnRateSnapshot {
                window_duration: seconds(30 * 60),
                window_minutes: 30,
                input_tokens_per_hour: 100,
                cached_input_tokens_per_hour: 30,
                output_tokens_per_hour: 20,
                reasoning_output_tokens_per_hour: 6,
                total_tokens_per_hour: 120,
                cost_usd_per_hour: usd(2.5),
            },
            burn_history: Vec::new(),
            per_model: TextMap::new(),
            missing_directories: vec!["/tmp/missing".to_string()],
            updated_time: "00:30:00".to_string(),
        },
        shown_in(NumberFormat::Short),
        false,
        CacheReadMode::Include,
    );

    assert!(rendered.contains("Current Day Codex Usage Watch"));
    assert!(rendered.contains("Burn Rate (/h)"));
    assert!(rendered.contains("2026-01-02"));
    assert!(rendered.contains("Updated"));
    assert!(rendered.contains("00:30:00"));
    assert!(rendered.contains("Input"));
    assert!(rendered.contains("$2.50"));
    assert!(rendered.contains("/tmp/missing"));
}

#[test]
fn app_render_watch_screen_omits_cache_metric_when_cache_read_is_excluded() {
    let rendered = render_watch_screen(
        &WatchSnapshot {
            date: "2026-01-02".to_string(),
            totals: Totals {
                input_tokens: 35,
                cached_input_tokens: 0,
                output_tokens: 10,
                reasoning_output_tokens: 3,
                total_tokens: 45,
                cost_usd: usd(1.25),
            },
            burn_rate: BurnRateSnapshot {
                window_duration: seconds(30 * 60),
                window_minutes: 30,
                input_tokens_per_hour: 70,
                cached_input_tokens_per_hour: 0,
                output_tokens_per_hour: 20,
                reasoning_output_tokens_per_hour: 6,
                total_tokens_per_hour: 90,
                cost_usd_per_hour: usd(2.5),
            },
            burn_history: Vec::new(),
            per_model: TextMap::new(),
            missing_directories: Vec::new(),
            updated_time: "00:30:00".to_string(),
        },
        shown_in(NumberFormat::Short),
        false,
        CacheReadMode::Exclude,
    );

    assert!(!rendered.contains("Cache"));
    assert!(rendered.contains("Input"));
    assert!(rendered.contains("Output"));
}

#[test]
fn behavior_checks_render_watch_screen_omits_cache_metric_when_cache_read_is_excluded() {
    let rendered = render_watch_screen(
        &WatchSnapshot {
            date: "2026-01-02".to_string(),
            totals: Totals {
                input_tokens: 35,
                cached_input_tokens: 0,
                output_tokens: 10,
                reasoning_output_tokens: 3,
                total_tokens: 45,
                cost_usd: usd(1.25),
            },
            burn_rate: BurnRateSnapshot {
                window_duration: seconds(30 * 60),
                window_minutes: 30,
                input_tokens_per_hour: 70,
                cached_input_tokens_per_hour: 0,
                output_tokens_per_hour: 20,
                reasoning_output_tokens_per_hour: 6,
                total_tokens_per_hour: 90,
                cost_usd_per_hour: usd(2.5),
            },
            burn_history: Vec::new(),
            per_model: TextMap::new(),
            missing_directories: Vec::new(),
            updated_time: "00:30:00".to_string(),
        },
        shown_in(NumberFormat::Short),
        false,
        CacheReadMode::Exclude,
    );

    assert!(!rendered.contains("Cache"));
    assert!(rendered.contains("Input"));
    assert!(rendered.contains("Output"));
}

#[test]
fn app_render_watch_screen_honors_number_format() {
    let snapshot = WatchSnapshot {
        date: "2026-01-02".to_string(),
        totals: Totals {
            input_tokens: 100_000,
            cached_input_tokens: 2_000,
            output_tokens: 3_000,
            reasoning_output_tokens: 4_000,
            total_tokens: 107_000,
            cost_usd: usd(12.5),
        },
        burn_rate: BurnRateSnapshot {
            window_duration: seconds(60 * 60),
            window_minutes: 60,
            input_tokens_per_hour: 100_000,
            cached_input_tokens_per_hour: 2_000,
            output_tokens_per_hour: 3_000,
            reasoning_output_tokens_per_hour: 4_000,
            total_tokens_per_hour: 107_000,
            cost_usd_per_hour: usd(12.5),
        },
        burn_history: Vec::new(),
        per_model: TextMap::new(),
        missing_directories: Vec::new(),
        updated_time: "00:30:00".to_string(),
    };

    let short = render_watch_screen(
        &snapshot,
        shown_in(NumberFormat::Short),
        false,
        CacheReadMode::Include,
    );
    let full = render_watch_screen(
        &snapshot,
        shown_in(NumberFormat::Full),
        false,
        CacheReadMode::Include,
    );

    assert!(short.contains("100K"));
    assert!(!short.contains("100,000"));
    assert!(full.contains("100,000"));
}

#[test]
fn behavior_checks_render_watch_screen_honors_number_format() {
    let snapshot = WatchSnapshot {
        date: "2026-01-02".to_string(),
        totals: Totals {
            input_tokens: 100_000,
            cached_input_tokens: 2_000,
            output_tokens: 3_000,
            reasoning_output_tokens: 4_000,
            total_tokens: 107_000,
            cost_usd: usd(12.5),
        },
        burn_rate: BurnRateSnapshot {
            window_duration: seconds(60 * 60),
            window_minutes: 60,
            input_tokens_per_hour: 100_000,
            cached_input_tokens_per_hour: 2_000,
            output_tokens_per_hour: 3_000,
            reasoning_output_tokens_per_hour: 4_000,
            total_tokens_per_hour: 107_000,
            cost_usd_per_hour: usd(12.5),
        },
        burn_history: Vec::new(),
        per_model: TextMap::new(),
        missing_directories: Vec::new(),
        updated_time: "00:30:00".to_string(),
    };

    let short = render_watch_screen(
        &snapshot,
        shown_in(NumberFormat::Short),
        false,
        CacheReadMode::Include,
    );
    let full = render_watch_screen(
        &snapshot,
        shown_in(NumberFormat::Full),
        false,
        CacheReadMode::Include,
    );

    assert!(short.contains("100K"));
    assert!(!short.contains("100,000"));
    assert!(full.contains("100,000"));
}

#[test]
fn app_render_watch_screen_omits_per_model_columns_when_flag_is_disabled() {
    let rendered = render_watch_screen(
        &WatchSnapshot {
            date: "2026-01-02".to_string(),
            totals: Totals {
                input_tokens: 50,
                cached_input_tokens: 15,
                output_tokens: 10,
                reasoning_output_tokens: 3,
                total_tokens: 60,
                cost_usd: usd(1.25),
            },
            burn_rate: BurnRateSnapshot {
                window_duration: seconds(30 * 60),
                window_minutes: 30,
                input_tokens_per_hour: 100,
                cached_input_tokens_per_hour: 30,
                output_tokens_per_hour: 20,
                reasoning_output_tokens_per_hour: 6,
                total_tokens_per_hour: 120,
                cost_usd_per_hour: usd(2.5),
            },
            burn_history: Vec::new(),
            per_model: burning(seconds(30 * 60), [(
                "gpt-5".to_string(),
                Burn {
                    input_tokens: 20,
                    cached_input_tokens: 5,
                    output_tokens: 4,
                    reasoning_output_tokens: 1,
                    total_tokens: 24,
                    cost_usd: 0.5,
                    fallback_usage: UsageTotals::default(),
                    fallback_cost_usd: 0.0,
                    is_fallback: false,
                },
            )]),
            missing_directories: Vec::new(),
            updated_time: "00:30:00".to_string(),
        },
        shown_in(NumberFormat::Short),
        false,
        CacheReadMode::Include,
    );

    assert!(!rendered.contains("| gpt-5 "));
}

#[test]
fn behavior_checks_render_watch_screen_omits_per_model_columns_when_flag_is_disabled() {
    let rendered = render_watch_screen(
        &WatchSnapshot {
            date: "2026-01-02".to_string(),
            totals: Totals {
                input_tokens: 50,
                cached_input_tokens: 15,
                output_tokens: 10,
                reasoning_output_tokens: 3,
                total_tokens: 60,
                cost_usd: usd(1.25),
            },
            burn_rate: BurnRateSnapshot {
                window_duration: seconds(30 * 60),
                window_minutes: 30,
                input_tokens_per_hour: 100,
                cached_input_tokens_per_hour: 30,
                output_tokens_per_hour: 20,
                reasoning_output_tokens_per_hour: 6,
                total_tokens_per_hour: 120,
                cost_usd_per_hour: usd(2.5),
            },
            burn_history: Vec::new(),
            per_model: burning(seconds(30 * 60), [(
                "gpt-5".to_string(),
                Burn {
                    input_tokens: 20,
                    cached_input_tokens: 5,
                    output_tokens: 4,
                    reasoning_output_tokens: 1,
                    total_tokens: 24,
                    cost_usd: 0.5,
                    fallback_usage: UsageTotals::default(),
                    fallback_cost_usd: 0.0,
                    is_fallback: false,
                },
            )]),
            missing_directories: Vec::new(),
            updated_time: "00:30:00".to_string(),
        },
        shown_in(NumberFormat::Short),
        false,
        CacheReadMode::Include,
    );

    assert!(!rendered.contains("| gpt-5 "));
}

#[test]
fn app_render_watch_screen_includes_per_model_columns_and_skips_zero_usage_models() {
    let rendered = render_watch_screen(
        &WatchSnapshot {
            date: "2026-01-02".to_string(),
            totals: Totals {
                input_tokens: 50,
                cached_input_tokens: 15,
                output_tokens: 10,
                reasoning_output_tokens: 3,
                total_tokens: 60,
                cost_usd: usd(1.25),
            },
            burn_rate: BurnRateSnapshot {
                window_duration: seconds(30 * 60),
                window_minutes: 30,
                input_tokens_per_hour: 100,
                cached_input_tokens_per_hour: 30,
                output_tokens_per_hour: 20,
                reasoning_output_tokens_per_hour: 6,
                total_tokens_per_hour: 120,
                cost_usd_per_hour: usd(2.5),
            },
            burn_history: Vec::new(),
            per_model: burning(seconds(30 * 60), [
                (
                    "gpt-5".to_string(),
                    Burn {
                        input_tokens: 20,
                        cached_input_tokens: 5,
                        output_tokens: 4,
                        reasoning_output_tokens: 1,
                        total_tokens: 24,
                        cost_usd: 0.5,
                        fallback_usage: UsageTotals::default(),
                        fallback_cost_usd: 0.0,
                        is_fallback: false,
                    },
                ),
                (
                    "gpt-5-codex".to_string(),
                    Burn {
                        input_tokens: 30,
                        cached_input_tokens: 10,
                        output_tokens: 6,
                        reasoning_output_tokens: 2,
                        total_tokens: 36,
                        cost_usd: 0.75,
                        fallback_usage: UsageTotals::default(),
                        fallback_cost_usd: 0.0,
                        is_fallback: false,
                    },
                ),
                (
                    "zero-model".to_string(),
                    Burn {
                        input_tokens: 0,
                        cached_input_tokens: 0,
                        output_tokens: 0,
                        reasoning_output_tokens: 0,
                        total_tokens: 0,
                        cost_usd: 0.0,
                        fallback_usage: UsageTotals::default(),
                        fallback_cost_usd: 0.0,
                        is_fallback: false,
                    },
                ),
            ]),
            missing_directories: Vec::new(),
            updated_time: "00:30:00".to_string(),
        },
        shown_in(NumberFormat::Short),
        true,
        CacheReadMode::Include,
    );

    assert!(rendered.contains("gpt-5"));
    assert!(rendered.contains("gpt-5-codex"));
    assert!(!rendered.contains("zero-model"));
    assert!(rendered.contains("Burn Rate (/h)"));
    assert!(rendered.contains("$1.00"));
    assert!(rendered.contains("$1.50"));
}

#[test]
fn behavior_checks_render_watch_screen_includes_per_model_columns_and_skips_zero_usage_models() {
    let rendered = render_watch_screen(
        &WatchSnapshot {
            date: "2026-01-02".to_string(),
            totals: Totals {
                input_tokens: 50,
                cached_input_tokens: 15,
                output_tokens: 10,
                reasoning_output_tokens: 3,
                total_tokens: 60,
                cost_usd: usd(1.25),
            },
            burn_rate: BurnRateSnapshot {
                window_duration: seconds(30 * 60),
                window_minutes: 30,
                input_tokens_per_hour: 100,
                cached_input_tokens_per_hour: 30,
                output_tokens_per_hour: 20,
                reasoning_output_tokens_per_hour: 6,
                total_tokens_per_hour: 120,
                cost_usd_per_hour: usd(2.5),
            },
            burn_history: Vec::new(),
            per_model: burning(seconds(30 * 60), [
                (
                    "gpt-5".to_string(),
                    Burn {
                        input_tokens: 20,
                        cached_input_tokens: 5,
                        output_tokens: 4,
                        reasoning_output_tokens: 1,
                        total_tokens: 24,
                        cost_usd: 0.5,
                        fallback_usage: UsageTotals::default(),
                        fallback_cost_usd: 0.0,
                        is_fallback: false,
                    },
                ),
                (
                    "gpt-5-codex".to_string(),
                    Burn {
                        input_tokens: 30,
                        cached_input_tokens: 10,
                        output_tokens: 6,
                        reasoning_output_tokens: 2,
                        total_tokens: 36,
                        cost_usd: 0.75,
                        fallback_usage: UsageTotals::default(),
                        fallback_cost_usd: 0.0,
                        is_fallback: false,
                    },
                ),
                (
                    "zero-model".to_string(),
                    Burn {
                        input_tokens: 0,
                        cached_input_tokens: 0,
                        output_tokens: 0,
                        reasoning_output_tokens: 0,
                        total_tokens: 0,
                        cost_usd: 0.0,
                        fallback_usage: UsageTotals::default(),
                        fallback_cost_usd: 0.0,
                        is_fallback: false,
                    },
                ),
            ]),
            missing_directories: Vec::new(),
            updated_time: "00:30:00".to_string(),
        },
        shown_in(NumberFormat::Short),
        true,
        CacheReadMode::Include,
    );

    assert!(rendered.contains("gpt-5"));
    assert!(rendered.contains("gpt-5-codex"));
    assert!(!rendered.contains("zero-model"));
    assert!(rendered.contains("Burn Rate (/h)"));
    assert!(rendered.contains("$1.00"));
    assert!(rendered.contains("$1.50"));
}

#[test]
fn app_render_watch_screen_places_burn_rate_column_last() {
    let rendered = render_watch_screen(
        &WatchSnapshot {
            date: "2026-01-02".to_string(),
            totals: Totals {
                input_tokens: 10,
                cached_input_tokens: 0,
                output_tokens: 2,
                reasoning_output_tokens: 1,
                total_tokens: 12,
                cost_usd: usd(0.25),
            },
            burn_rate: BurnRateSnapshot {
                window_duration: seconds(30 * 60),
                window_minutes: 30,
                input_tokens_per_hour: 20,
                cached_input_tokens_per_hour: 0,
                output_tokens_per_hour: 4,
                reasoning_output_tokens_per_hour: 2,
                total_tokens_per_hour: 24,
                cost_usd_per_hour: usd(0.5),
            },
            burn_history: Vec::new(),
            per_model: burning(seconds(30 * 60), [(
                "gpt-5".to_string(),
                Burn {
                    input_tokens: 10,
                    cached_input_tokens: 0,
                    output_tokens: 2,
                    reasoning_output_tokens: 1,
                    total_tokens: 12,
                    cost_usd: 0.25,
                    fallback_usage: UsageTotals::default(),
                    fallback_cost_usd: 0.0,
                    is_fallback: false,
                },
            )]),
            missing_directories: Vec::new(),
            updated_time: "00:30:00".to_string(),
        },
        shown_in(NumberFormat::Full),
        true,
        CacheReadMode::Include,
    );

    let header = rendered
        .lines()
        .find(|line| line.contains("Metric") && line.contains("Burn Rate (/h)"))
        .expect("header");
    assert!(header.contains("Metric"));
    assert!(header.contains("Today"));
    assert!(header.contains("gpt-5 /h"));
    assert!(header.ends_with("Burn Rate (/h) |"));
}

#[test]
fn behavior_checks_render_watch_screen_places_burn_rate_column_last() {
    let rendered = render_watch_screen(
        &WatchSnapshot {
            date: "2026-01-02".to_string(),
            totals: Totals {
                input_tokens: 10,
                cached_input_tokens: 0,
                output_tokens: 2,
                reasoning_output_tokens: 1,
                total_tokens: 12,
                cost_usd: usd(0.25),
            },
            burn_rate: BurnRateSnapshot {
                window_duration: seconds(30 * 60),
                window_minutes: 30,
                input_tokens_per_hour: 20,
                cached_input_tokens_per_hour: 0,
                output_tokens_per_hour: 4,
                reasoning_output_tokens_per_hour: 2,
                total_tokens_per_hour: 24,
                cost_usd_per_hour: usd(0.5),
            },
            burn_history: Vec::new(),
            per_model: burning(seconds(30 * 60), [(
                "gpt-5".to_string(),
                Burn {
                    input_tokens: 10,
                    cached_input_tokens: 0,
                    output_tokens: 2,
                    reasoning_output_tokens: 1,
                    total_tokens: 12,
                    cost_usd: 0.25,
                    fallback_usage: UsageTotals::default(),
                    fallback_cost_usd: 0.0,
                    is_fallback: false,
                },
            )]),
            missing_directories: Vec::new(),
            updated_time: "00:30:00".to_string(),
        },
        shown_in(NumberFormat::Full),
        true,
        CacheReadMode::Include,
    );

    let header = rendered
        .lines()
        .find(|line| line.contains("Metric") && line.contains("Burn Rate (/h)"))
        .expect("header");
    assert!(header.contains("Metric"));
    assert!(header.contains("Today"));
    assert!(header.contains("gpt-5 /h"));
    assert!(header.ends_with("Burn Rate (/h) |"));
}

#[test]
fn app_render_watch_screen_scales_each_model_burn_column_independently() {
    let rendered = render_watch_screen(
        &WatchSnapshot {
            date: "2026-01-02".to_string(),
            totals: Totals {
                input_tokens: 2,
                cached_input_tokens: 0,
                output_tokens: 0,
                reasoning_output_tokens: 0,
                total_tokens: 2,
                cost_usd: usd(0.02),
            },
            burn_rate: BurnRateSnapshot {
                window_duration: seconds(59 * 60),
                window_minutes: 59,
                input_tokens_per_hour: 2,
                cached_input_tokens_per_hour: 0,
                output_tokens_per_hour: 0,
                reasoning_output_tokens_per_hour: 0,
                total_tokens_per_hour: 2,
                cost_usd_per_hour: usd(0.02),
            },
            burn_history: Vec::new(),
            per_model: burning(seconds(59 * 60), [
                (
                    "gpt-5".to_string(),
                    Burn {
                        input_tokens: 1,
                        cached_input_tokens: 0,
                        output_tokens: 0,
                        reasoning_output_tokens: 0,
                        total_tokens: 1,
                        cost_usd: 0.01,
                        fallback_usage: UsageTotals::default(),
                        fallback_cost_usd: 0.0,
                        is_fallback: false,
                    },
                ),
                (
                    "gpt-5-codex".to_string(),
                    Burn {
                        input_tokens: 1,
                        cached_input_tokens: 0,
                        output_tokens: 0,
                        reasoning_output_tokens: 0,
                        total_tokens: 1,
                        cost_usd: 0.01,
                        fallback_usage: UsageTotals::default(),
                        fallback_cost_usd: 0.0,
                        is_fallback: false,
                    },
                ),
            ]),
            missing_directories: Vec::new(),
            updated_time: "00:30:00".to_string(),
        },
        shown_in(NumberFormat::Full),
        true,
        CacheReadMode::Include,
    );

    let input_row = rendered
        .lines()
        .find(|line| line.contains("| Input "))
        .expect("input row");
    let cells = input_row
        .split('|')
        .map(str::trim)
        .filter(|cell| !cell.is_empty())
        .collect::<Vec<_>>();
    assert_eq!(cells, vec!["Input", "2", "1", "1", "2"]);
}

#[test]
fn behavior_checks_render_watch_screen_scales_each_model_burn_column_independently() {
    let rendered = render_watch_screen(
        &WatchSnapshot {
            date: "2026-01-02".to_string(),
            totals: Totals {
                input_tokens: 2,
                cached_input_tokens: 0,
                output_tokens: 0,
                reasoning_output_tokens: 0,
                total_tokens: 2,
                cost_usd: usd(0.02),
            },
            burn_rate: BurnRateSnapshot {
                window_duration: seconds(59 * 60),
                window_minutes: 59,
                input_tokens_per_hour: 2,
                cached_input_tokens_per_hour: 0,
                output_tokens_per_hour: 0,
                reasoning_output_tokens_per_hour: 0,
                total_tokens_per_hour: 2,
                cost_usd_per_hour: usd(0.02),
            },
            burn_history: Vec::new(),
            per_model: burning(seconds(59 * 60), [
                (
                    "gpt-5".to_string(),
                    Burn {
                        input_tokens: 1,
                        cached_input_tokens: 0,
                        output_tokens: 0,
                        reasoning_output_tokens: 0,
                        total_tokens: 1,
                        cost_usd: 0.01,
                        fallback_usage: UsageTotals::default(),
                        fallback_cost_usd: 0.0,
                        is_fallback: false,
                    },
                ),
                (
                    "gpt-5-codex".to_string(),
                    Burn {
                        input_tokens: 1,
                        cached_input_tokens: 0,
                        output_tokens: 0,
                        reasoning_output_tokens: 0,
                        total_tokens: 1,
                        cost_usd: 0.01,
                        fallback_usage: UsageTotals::default(),
                        fallback_cost_usd: 0.0,
                        is_fallback: false,
                    },
                ),
            ]),
            missing_directories: Vec::new(),
            updated_time: "00:30:00".to_string(),
        },
        shown_in(NumberFormat::Full),
        true,
        CacheReadMode::Include,
    );

    let input_row = rendered
        .lines()
        .find(|line| line.contains("| Input "))
        .expect("input row");
    let cells = input_row
        .split('|')
        .map(str::trim)
        .filter(|cell| !cell.is_empty())
        .collect::<Vec<_>>();
    assert_eq!(cells, vec!["Input", "2", "1", "1", "2"]);
}

#[test]
fn app_render_watch_screen_includes_fallback_model_columns() {
    let rendered = render_watch_screen(
        &WatchSnapshot {
            date: "2026-01-02".to_string(),
            totals: Totals {
                input_tokens: 2,
                cached_input_tokens: 0,
                output_tokens: 0,
                reasoning_output_tokens: 0,
                total_tokens: 2,
                cost_usd: usd(0.02),
            },
            burn_rate: BurnRateSnapshot {
                window_duration: seconds(30 * 60),
                window_minutes: 30,
                input_tokens_per_hour: 4,
                cached_input_tokens_per_hour: 0,
                output_tokens_per_hour: 0,
                reasoning_output_tokens_per_hour: 0,
                total_tokens_per_hour: 4,
                cost_usd_per_hour: usd(0.04),
            },
            burn_history: Vec::new(),
            per_model: burning(seconds(30 * 60), [(
                "gpt-5".to_string(),
                Burn {
                    input_tokens: 2,
                    cached_input_tokens: 0,
                    output_tokens: 0,
                    reasoning_output_tokens: 0,
                    total_tokens: 2,
                    cost_usd: 0.01,
                    fallback_usage: UsageTotals {
                        input: 1,
                        cached_input: 0,
                        output: 0,
                        reasoning_output: 0,
                        total: 1,
                    },
                    fallback_cost_usd: 0.01,
                    is_fallback: true,
                },
            )]),
            missing_directories: Vec::new(),
            updated_time: "00:30:00".to_string(),
        },
        shown_in(NumberFormat::Full),
        true,
        CacheReadMode::Include,
    );

    let header = rendered
        .lines()
        .find(|line| line.contains("Metric") && line.contains("Burn Rate (/h)"))
        .expect("header");
    assert!(header.contains("gpt-5 /h"));
    assert!(header.contains("gpt-5 (fallback) /h"));

    let input_row = rendered
        .lines()
        .find(|line| line.contains("| Input "))
        .expect("input row");
    let cells = input_row
        .split('|')
        .map(str::trim)
        .filter(|cell| !cell.is_empty())
        .collect::<Vec<_>>();
    assert_eq!(cells, vec!["Input", "2", "2", "2", "4"]);
}

#[test]
fn behavior_checks_render_watch_screen_includes_fallback_model_columns() {
    let rendered = render_watch_screen(
        &WatchSnapshot {
            date: "2026-01-02".to_string(),
            totals: Totals {
                input_tokens: 2,
                cached_input_tokens: 0,
                output_tokens: 0,
                reasoning_output_tokens: 0,
                total_tokens: 2,
                cost_usd: usd(0.02),
            },
            burn_rate: BurnRateSnapshot {
                window_duration: seconds(30 * 60),
                window_minutes: 30,
                input_tokens_per_hour: 4,
                cached_input_tokens_per_hour: 0,
                output_tokens_per_hour: 0,
                reasoning_output_tokens_per_hour: 0,
                total_tokens_per_hour: 4,
                cost_usd_per_hour: usd(0.04),
            },
            burn_history: Vec::new(),
            per_model: burning(seconds(30 * 60), [(
                "gpt-5".to_string(),
                Burn {
                    input_tokens: 2,
                    cached_input_tokens: 0,
                    output_tokens: 0,
                    reasoning_output_tokens: 0,
                    total_tokens: 2,
                    cost_usd: 0.01,
                    fallback_usage: UsageTotals {
                        input: 1,
                        cached_input: 0,
                        output: 0,
                        reasoning_output: 0,
                        total: 1,
                    },
                    fallback_cost_usd: 0.01,
                    is_fallback: true,
                },
            )]),
            missing_directories: Vec::new(),
            updated_time: "00:30:00".to_string(),
        },
        shown_in(NumberFormat::Full),
        true,
        CacheReadMode::Include,
    );

    let header = rendered
        .lines()
        .find(|line| line.contains("Metric") && line.contains("Burn Rate (/h)"))
        .expect("header");
    assert!(header.contains("gpt-5 /h"));
    assert!(header.contains("gpt-5 (fallback) /h"));

    let input_row = rendered
        .lines()
        .find(|line| line.contains("| Input "))
        .expect("input row");
    let cells = input_row
        .split('|')
        .map(str::trim)
        .filter(|cell| !cell.is_empty())
        .collect::<Vec<_>>();
    assert_eq!(cells, vec!["Input", "2", "2", "2", "4"]);
}

#[test]
fn app_render_watch_screen_wraps_model_columns_into_stacked_tables() {
    let snapshot = watch_snapshot_with_models(burning(seconds(30 * 60), [
        (
            "gpt-5".to_string(),
            Burn {
                input_tokens: 20,
                cached_input_tokens: 5,
                output_tokens: 4,
                reasoning_output_tokens: 1,
                total_tokens: 24,
                cost_usd: 0.60,
                fallback_usage: UsageTotals::default(),
                fallback_cost_usd: 0.0,
                is_fallback: false,
            },
        ),
        (
            "gpt-5-codex".to_string(),
            Burn {
                input_tokens: 20,
                cached_input_tokens: 5,
                output_tokens: 4,
                reasoning_output_tokens: 1,
                total_tokens: 24,
                cost_usd: 0.60,
                fallback_usage: UsageTotals::default(),
                fallback_cost_usd: 0.0,
                is_fallback: false,
            },
        ),
        (
            "gpt-4.1-mini".to_string(),
            Burn {
                input_tokens: 20,
                cached_input_tokens: 5,
                output_tokens: 4,
                reasoning_output_tokens: 1,
                total_tokens: 24,
                cost_usd: 0.60,
                fallback_usage: UsageTotals::default(),
                fallback_cost_usd: 0.0,
                is_fallback: false,
            },
        ),
    ]));

    let rendered = render_watch_screen_with_width(
        &snapshot,
        shown_in(NumberFormat::Full),
        true,
        CacheReadMode::Include,
        Some(40),
        &flat_scales(),
    );

    let header_lines = rendered
        .lines()
        .filter(|line| line.contains("Metric"))
        .collect::<Vec<_>>();
    assert_eq!(header_lines.len(), 3);
    assert_eq!(
        header_lines
            .iter()
            .filter(|line| line.contains("Today"))
            .count(),
        1
    );
    assert_eq!(
        header_lines
            .iter()
            .filter(|line| line.contains("Burn Rate (/h)"))
            .count(),
        1
    );
    assert_eq!(
        rendered
            .lines()
            .filter(|line| line.contains("| Input "))
            .count(),
        3
    );
    assert!(header_lines[0].contains("gpt-4.1-mini /h"));
    assert!(header_lines[1].contains("gpt-5 /h"));
    assert!(header_lines[2].contains("gpt-5-codex /h"));
}

#[test]
fn behavior_checks_render_watch_screen_wraps_model_columns_into_stacked_tables() {
    let snapshot = watch_snapshot_with_models(burning(seconds(30 * 60), [
        (
            "gpt-5".to_string(),
            Burn {
                input_tokens: 20,
                cached_input_tokens: 5,
                output_tokens: 4,
                reasoning_output_tokens: 1,
                total_tokens: 24,
                cost_usd: 0.60,
                fallback_usage: UsageTotals::default(),
                fallback_cost_usd: 0.0,
                is_fallback: false,
            },
        ),
        (
            "gpt-5-codex".to_string(),
            Burn {
                input_tokens: 20,
                cached_input_tokens: 5,
                output_tokens: 4,
                reasoning_output_tokens: 1,
                total_tokens: 24,
                cost_usd: 0.60,
                fallback_usage: UsageTotals::default(),
                fallback_cost_usd: 0.0,
                is_fallback: false,
            },
        ),
        (
            "gpt-4.1-mini".to_string(),
            Burn {
                input_tokens: 20,
                cached_input_tokens: 5,
                output_tokens: 4,
                reasoning_output_tokens: 1,
                total_tokens: 24,
                cost_usd: 0.60,
                fallback_usage: UsageTotals::default(),
                fallback_cost_usd: 0.0,
                is_fallback: false,
            },
        ),
    ]));

    let rendered = render_watch_screen_with_width(
        &snapshot,
        shown_in(NumberFormat::Full),
        true,
        CacheReadMode::Include,
        Some(40),
        &flat_scales(),
    );

    let header_lines = rendered
        .lines()
        .filter(|line| line.contains("Metric"))
        .collect::<Vec<_>>();
    assert_eq!(header_lines.len(), 3);
    assert_eq!(
        header_lines
            .iter()
            .filter(|line| line.contains("Today"))
            .count(),
        1
    );
    assert_eq!(
        header_lines
            .iter()
            .filter(|line| line.contains("Burn Rate (/h)"))
            .count(),
        1
    );
    assert_eq!(
        rendered
            .lines()
            .filter(|line| line.contains("| Input "))
            .count(),
        3
    );
    assert!(header_lines[0].contains("gpt-4.1-mini /h"));
    assert!(header_lines[1].contains("gpt-5 /h"));
    assert!(header_lines[2].contains("gpt-5-codex /h"));
}

#[test]
fn app_render_watch_screen_keeps_single_table_when_width_is_sufficient() {
    let snapshot = watch_snapshot_with_models(burning(seconds(30 * 60), [
        (
            "gpt-5".to_string(),
            Burn {
                input_tokens: 30,
                cached_input_tokens: 8,
                output_tokens: 5,
                reasoning_output_tokens: 2,
                total_tokens: 35,
                cost_usd: 0.75,
                fallback_usage: UsageTotals::default(),
                fallback_cost_usd: 0.0,
                is_fallback: false,
            },
        ),
        (
            "gpt-5-codex".to_string(),
            Burn {
                input_tokens: 30,
                cached_input_tokens: 7,
                output_tokens: 7,
                reasoning_output_tokens: 1,
                total_tokens: 37,
                cost_usd: 1.05,
                fallback_usage: UsageTotals::default(),
                fallback_cost_usd: 0.0,
                is_fallback: false,
            },
        ),
    ]));

    let rendered = render_watch_screen_with_width(
        &snapshot,
        shown_in(NumberFormat::Full),
        true,
        CacheReadMode::Include,
        Some(200),
        &flat_scales(),
    );

    let header_lines = rendered
        .lines()
        .filter(|line| line.contains("Metric"))
        .collect::<Vec<_>>();
    assert_eq!(header_lines.len(), 1);
    assert!(header_lines[0].contains("Today"));
    assert!(header_lines[0].contains("gpt-5 /h"));
    assert!(header_lines[0].contains("gpt-5-codex /h"));
    assert!(header_lines[0].contains("Burn Rate (/h)"));
    assert_eq!(
        rendered
            .lines()
            .filter(|line| line.contains("| Input "))
            .count(),
        1
    );
}

#[test]
fn behavior_checks_render_watch_screen_keeps_single_table_when_width_is_sufficient() {
    let snapshot = watch_snapshot_with_models(burning(seconds(30 * 60), [
        (
            "gpt-5".to_string(),
            Burn {
                input_tokens: 30,
                cached_input_tokens: 8,
                output_tokens: 5,
                reasoning_output_tokens: 2,
                total_tokens: 35,
                cost_usd: 0.75,
                fallback_usage: UsageTotals::default(),
                fallback_cost_usd: 0.0,
                is_fallback: false,
            },
        ),
        (
            "gpt-5-codex".to_string(),
            Burn {
                input_tokens: 30,
                cached_input_tokens: 7,
                output_tokens: 7,
                reasoning_output_tokens: 1,
                total_tokens: 37,
                cost_usd: 1.05,
                fallback_usage: UsageTotals::default(),
                fallback_cost_usd: 0.0,
                is_fallback: false,
            },
        ),
    ]));

    let rendered = render_watch_screen_with_width(
        &snapshot,
        shown_in(NumberFormat::Full),
        true,
        CacheReadMode::Include,
        Some(200),
        &flat_scales(),
    );

    let header_lines = rendered
        .lines()
        .filter(|line| line.contains("Metric"))
        .collect::<Vec<_>>();
    assert_eq!(header_lines.len(), 1);
    assert!(header_lines[0].contains("Today"));
    assert!(header_lines[0].contains("gpt-5 /h"));
    assert!(header_lines[0].contains("gpt-5-codex /h"));
    assert!(header_lines[0].contains("Burn Rate (/h)"));
    assert_eq!(
        rendered
            .lines()
            .filter(|line| line.contains("| Input "))
            .count(),
        1
    );
}

#[test]
fn cost_plot_rows_use_border_specific_height_palettes() {
    let points = graph_points(&[0.0, 0.25, 2.0]);

    assert_eq!(
        cost_plot_rows(&points, rank(2.0), &scale(2.0), BorderStyle::Ascii),
        vec!["  %", "  %", "  %", " =%"]
    );
    assert_eq!(
        cost_plot_rows(&points, rank(2.0), &scale(2.0), BorderStyle::Unicode),
        vec!["  █", "  █", "  █", " ▄█"]
    );
}

#[test]
fn cost_legend_labels_match_graph_row_midpoints() {
    assert_eq!(
        cost_legend_labels(&scale(8.0).legend, BorderStyle::Unicode),
        vec!["─ $7.00/h", "─ $5.00/h", "─ $3.00/h", "─ $1.00/h"]
    );
    assert_eq!(
        cost_legend_labels(&scale(8.0).legend, BorderStyle::Ascii),
        vec!["- $7.00/h", "- $5.00/h", "- $3.00/h", "- $1.00/h"]
    );
}

#[test]
fn append_cost_legend_left_aligns_varying_label_widths() {
    assert_eq!(
        append_cost_legend("plot", "- $9.00/h", 10),
        "plot  - $9.00/h "
    );
    assert_eq!(
        append_cost_legend("plot", "- $10.00/h", 10),
        "plot  - $10.00/h"
    );
}

#[test]
fn limit_block_counts_against_graph_fit() {
    let mut snapshot = watch_layout_snapshot();
    snapshot.burn_history = graph_points(&[1.0; 33]);
    let status = CodexLimitStatus::Unavailable(CodexLimitUnavailableReason::RequestFailed);
    let graph_scales = scales(1.0);
    let without_limits = render_watch_screen_with_size(
        &snapshot,
        shown_in(NumberFormat::Full),
        false,
        CacheReadMode::Include,
        Some(200),
        Some(24),
        &graph_scales,
    );
    let with_limits = render_watch_screen_with_request(&WatchRenderRequest {
        snapshot: &snapshot,
        render_config: shown_in(NumberFormat::Full),
        show_model_burn_rate: false,
        cache_read_mode: CacheReadMode::Include,
        terminal_width: Some(200),
        terminal_height: Some(24),
        codex_limit_status: Some(&status),
        now_epoch_seconds: 0,
        graph_scales: &graph_scales,
    });

    assert!(without_limits.contains("Burn Rate History"));
    assert!(with_limits.contains("Codex Limits"));
    assert!(with_limits.contains("unavailable (request failed)"));
    assert!(!with_limits.contains("Burn Rate History"));
}

#[test]
fn watch_table_blocks_keep_single_block_when_width_is_sufficient() {
    let blocks = watch_table_blocks(
        &vec![
            "alpha /h".to_string(),
            "beta /h".to_string(),
            "gamma /h".to_string(),
        ],
        &watch_layout_rows(),
        &watch_layout_snapshot(),
        TableRenderConfig {
            style: TableStyle::Plain,
            borders: BorderStyle::Ascii,
            number_format: NumberFormat::Full,
        },
        Some(120),
    );

    assert_eq!(blocks, vec![WatchTableBlock::new(true, 0, 3, true)]);
}

#[test]
fn watch_table_blocks_split_into_minimal_stacked_layout() {
    let blocks = watch_table_blocks(
        &vec![
            "alpha /h".to_string(),
            "beta /h".to_string(),
            "gamma /h".to_string(),
        ],
        &watch_layout_rows(),
        &watch_layout_snapshot(),
        TableRenderConfig {
            style: TableStyle::Plain,
            borders: BorderStyle::Ascii,
            number_format: NumberFormat::Full,
        },
        Some(24),
    );

    assert_eq!(
        blocks,
        vec![
            WatchTableBlock::new(true, 0, 1, false),
            WatchTableBlock::new(false, 1, 2, false),
            WatchTableBlock::new(false, 2, 3, true),
        ]
    );
}

#[test]
fn watch_table_blocks_measure_unicode_borders_in_terminal_columns() {
    let snapshot = watch_layout_snapshot();
    let rows = watch_layout_rows();
    let model_headers = vec!["alpha /h".to_string()];
    let render_config = TableRenderConfig {
        style: TableStyle::Plain,
        borders: BorderStyle::Unicode,
        number_format: NumberFormat::Full,
    };
    let layout = WatchBlockLayoutContext {
        model_headers: &model_headers,
        rows: &rows,
        snapshot: &snapshot,
        render_config,
        terminal_width: usize::MAX,
    };
    let full_block = WatchTableBlock::new(true, 0, 1, true);
    let measured_width: usize = layout.block_width(full_block);

    assert_eq!(measured_width, 52);
    assert_eq!(
        watch_table_blocks(
            &model_headers,
            &rows,
            &snapshot,
            render_config,
            Some(measured_width),
        ),
        vec![full_block]
    );
}

fn documented_snapshot() -> WatchSnapshot {
    WatchSnapshot {
        date: "2026-03-11".to_string(),
        totals: Totals {
            input_tokens: 450_000,
            cached_input_tokens: 120_000,
            output_tokens: 30_000,
            reasoning_output_tokens: 12_000,
            total_tokens: 612_000,
            cost_usd: usd(0.85),
        },
        burn_rate: BurnRateSnapshot {
            window_duration: seconds(60 * 60),
            window_minutes: 60,
            input_tokens_per_hour: 56_000,
            cached_input_tokens_per_hour: 15_000,
            output_tokens_per_hour: 4_000,
            reasoning_output_tokens_per_hour: 2_000,
            total_tokens_per_hour: 77_000,
            cost_usd_per_hour: usd(0.11),
        },
        burn_history: Vec::new(),
        per_model: TextMap::new(),
        missing_directories: Vec::new(),
        updated_time: "14:32:23".to_string(),
    }
}

#[test]
fn watch_screen_has_the_documented_layout() {
    let rendered = render_watch_screen(
        &documented_snapshot(),
        shown_in(NumberFormat::Short),
        false,
        CacheReadMode::Include,
    );
    let expected = [
        "Current Day Codex Usage Watch",
        "Date: 2026-03-11  Window: 60 minutes",
        "",
        "+-----------+------------+----------------+",
        "| Metric    | Today      | Burn Rate (/h) |",
        "+-----------+------------+----------------+",
        "| Input     |       450K |            56K |",
        "| Cache     |       120K |            15K |",
        "| Output    |        30K |             4K |",
        "| Reasoning |        12K |             2K |",
        "| Total     |       612K |            77K |",
        "| Cost      |      $0.85 |          $0.11 |",
        "| Updated   | 2026-03-11 |       14:32:23 |",
        "+-----------+------------+----------------+",
    ]
    .join("\n");
    assert_eq!(rendered.trim_end(), expected);
}

#[test]
fn snapshots_are_written_on_a_cleared_screen() {
    let snapshot = documented_snapshot();
    let graph_scales = flat_scales();
    let request = WatchRenderRequest {
        snapshot: &snapshot,
        render_config: shown_in(NumberFormat::Short),
        show_model_burn_rate: false,
        cache_read_mode: CacheReadMode::Include,
        terminal_width: None,
        terminal_height: None,
        codex_limit_status: None,
        now_epoch_seconds: 0,
        graph_scales: &graph_scales,
    };
    let mut output = String::new();
    write_watch_snapshot(&mut output, &request);
    assert_eq!(
        output.strip_prefix("\x1b[2J\x1b[H"),
        Some(render_watch_screen_with_request(&request).as_str())
    );
}

#[test]
fn shown_graphs_leave_the_screen_within_the_terminal() {
    let mut snapshot = documented_snapshot();
    snapshot.missing_directories = vec!["/gone".to_string()];
    snapshot.burn_history = graph_points(&[0.5; 33]);
    let graph_scales = scales(0.5);
    let status = CodexLimitStatus::Unavailable(CodexLimitUnavailableReason::Offline);
    let mut shown: usize = 0;
    for height in 20..60usize {
        let screen = render_watch_screen_with_limits(
            &snapshot,
            shown_in(NumberFormat::Short),
            false,
            CacheReadMode::Include,
            Some((120, height)),
            &graph_scales,
            &status,
            0,
        );
        if screen.contains("Burn Rate History") {
            shown += 1;
            assert!(screen.lines().count() <= height);
        }
    }
    assert!(shown > 0);
}

#[test]
fn short_histories_fall_back_to_four_hours() {
    let history = graph_points(&[1.0; 17]);
    assert!(burn_history_for_horizon(&history, WatchGraphHorizon::EightHours).is_none());
    let points =
        burn_history_for_horizon(&history, WatchGraphHorizon::FourHours).expect("four hours");
    assert_eq!(points.len(), WatchGraphHorizon::FourHours.point_count());
    let graph = render_watch_graph(
        &history,
        &scales(1.0),
        shown_in(NumberFormat::Full),
        None,
        None,
        0,
    )
    .expect("graph");
    assert!(graph.contains("00:00 ----- 16:00"));
    assert!(
        render_watch_graph(
            &graph_points(&[1.0; 16]),
            &scales(1.0),
            shown_in(NumberFormat::Full),
            None,
            None,
            0,
        )
        .is_none()
    );
    assert!(
        render_watch_graph(
            &history,
            &scales(1.0),
            shown_in(NumberFormat::Full),
            Some(10),
            None,
            0,
        )
        .is_none()
    );
}

#[test]
fn graphs_are_framed() {
    let points = graph_points(&[0.0, 1.0]);
    let graph = format_watch_graph(&points, &scale(1.0), shown_in(NumberFormat::Full))
        .expect("graph");
    assert_eq!(rendered_line_count(&graph), 9);
    assert!(graph.starts_with('+'));
    assert!(graph.ends_with('+'));
    assert!(format_watch_graph(&[], &scale(1.0), shown_in(NumberFormat::Full)).is_none());
    assert!(graph_fits(&graph, Some(21), Some(10), 0));
    assert!(!graph_fits(&graph, Some(20), Some(10), 0));
    assert!(!graph_fits(&graph, Some(21), Some(10), 1));
    assert!(!graph_fits(&graph, None, Some(10), usize::MAX));
}

#[test]
fn columns_grow_with_their_cost() {
    let scale = scale(2.0);
    assert_eq!(graph_column_height(rank(0.0), rank(2.0), &scale), 0);
    assert_eq!(graph_column_height(rank(0.01), rank(2.0), &scale), 1);
    assert_eq!(graph_column_height(rank(1.0), rank(2.0), &scale), 16);
    assert_eq!(graph_column_height(rank(2.0), rank(2.0), &scale), 32);
    assert_eq!(graph_column_height(rank(1.0), 0, &scale), 0);
    assert_eq!(
        max_graph_cost(&graph_points(&[0.5, 2.0, -1.0])),
        rank(2.0)
    );
    for height in 0..=32usize {
        let filled: usize = (1..=4usize)
            .map(|level| graph_row_filled_units(height, level))
            .sum();
        assert_eq!(filled, height);
    }
    assert_eq!(graph_column_glyph(4, 1, BorderStyle::Ascii), '=');
    assert_eq!(graph_column_glyph(8, 2, BorderStyle::Unicode), ' ');
    assert_eq!(graph_row_filled_units(100, 0), 8);
    assert_eq!(graph_row_filled_units(100, 13), 4);
    assert_eq!(graph_row_filled_units(100, usize::MAX / 8), 0);
    assert_eq!(graph_column_glyph(100, 13, BorderStyle::Ascii), '=');
}

#[test]
fn axes_keep_their_labels() {
    let points = graph_points(&[1.0, 1.0]);
    assert_eq!(
        graph_axis_line(&points[0], &points[1], 17, BorderStyle::Ascii),
        "00:00 ----- 01:00"
    );
    assert_eq!(
        graph_axis_line(&points[0], &points[1], 3, BorderStyle::Ascii),
        "00:00  01:00"
    );
}

#[test]
fn escape_sequences_take_no_columns() {
    assert_eq!(rendered_width("abc"), 3);
    assert_eq!(rendered_width("\u{1b}[1;38;5;81mabc\u{1b}[0m"), 3);
    assert_eq!(rendered_width("\u{1b}abc"), 4);
    assert_eq!(rendered_width("\u{1b}[12"), 0);
    assert_eq!(rendered_width("─é"), 2);
}

#[test]
fn blocks_show_every_model_once() {
    let headers = vec![
        "alpha /h".to_string(),
        "beta /h".to_string(),
        "gamma /h".to_string(),
    ];
    for width in [1usize, 24, 40, 60, 120] {
        let blocks = watch_table_blocks(
            &headers,
            &watch_layout_rows(),
            &watch_layout_snapshot(),
            shown_in(NumberFormat::Full),
            Some(width),
        );
        let mut shown: Vec<String> = Vec::new();
        for block in &blocks {
            shown.extend(
                watch_block_headers(&headers, block)
                    .into_iter()
                    .filter(|header| headers.contains(header)),
            );
        }
        assert_eq!(shown, headers);
        assert_eq!(blocks.iter().filter(|block| block.include_today).count(), 1);
    }
}

#[test]
fn models_that_burn_nothing_have_no_column() {
    let snapshot = watch_snapshot_with_models(burning(
        seconds(30 * 60),
        [(
            "idle".to_string(),
            Burn {
                input_tokens: 0,
                cached_input_tokens: 0,
                output_tokens: 0,
                reasoning_output_tokens: 0,
                total_tokens: 0,
                cost_usd: 0.0,
                fallback_usage: UsageTotals::default(),
                fallback_cost_usd: 0.0,
                is_fallback: false,
            },
        )],
    ));
    assert!(active_watch_burn_columns(&snapshot).is_empty());
}
