//! Rendered reports.

use codexusage::keyed::TextMap;
use codexusage::model::{
    CacheReadMode, DailyRow, ModelBreakdown, MonthlyRow, NumberFormat, ReportOutput, SessionRow,
    Totals, UsageTotals, UsdAmount,
};
use codexusage::report_view::{
    append_usage_cells, daily_display_rows, grand_total_row, missing_directory_warning,
    model_display_row, render_report,
};
use codexusage::table::{BorderStyle, DisplayRowKind, TableRenderConfig, TableStyle};

fn usd(cost: f64) -> UsdAmount {
    let shown = format!("{cost:.2}");
    UsdAmount {
        cents: shown.replace('.', "").parse().expect("whole cents"),
        positive: cost > 0.0,
    }
}

fn models<const N: usize>(entries: [(String, ModelBreakdown); N]) -> TextMap<ModelBreakdown> {
    let mut map = TextMap::new();
    for (model, breakdown) in entries {
        map.insert(model, breakdown);
    }
    map
}

fn shown_in(number_format: NumberFormat) -> TableRenderConfig {
    TableRenderConfig {
        style: TableStyle::Plain,
        borders: BorderStyle::Ascii,
        number_format,
    }
}

fn strip_ansi_sequences(value: &str) -> String {
    let mut output = String::with_capacity(value.len());
    let mut characters = value.chars();
    while let Some(character) = characters.next() {
        if character == '\u{1b}' && matches!(characters.next(), Some('[')) {
            for next in characters.by_ref() {
                if next.is_ascii_alphabetic() {
                    break;
                }
            }
            continue;
        }
        output.push(character);
    }
    output
}

#[test]
fn app_render_report_includes_totals_for_daily_and_session_views() {
    let daily = ReportOutput::Daily {
        rows: vec![DailyRow {
            date: "2025-09-11".to_string(),
            input_tokens: 100,
            cached_input_tokens: 10,
            output_tokens: 50,
            reasoning_output_tokens: 0,
            total_tokens: 150,
            cost_usd: usd(0.25),
            models: models([
                (
                    "gpt-5".to_string(),
                    ModelBreakdown {
                        input_tokens: 60,
                        cached_input_tokens: 5,
                        output_tokens: 25,
                        reasoning_output_tokens: 0,
                        total_tokens: 85,
                        cost_usd: usd(0.0),
                        is_fallback: false,
                        ..ModelBreakdown::default()
                    },
                ),
                (
                    "gpt-5-codex".to_string(),
                    ModelBreakdown {
                        input_tokens: 40,
                        cached_input_tokens: 5,
                        output_tokens: 25,
                        reasoning_output_tokens: 0,
                        total_tokens: 65,
                        cost_usd: usd(0.0),
                        is_fallback: false,
                        ..ModelBreakdown::default()
                    },
                ),
            ]),
        }],
        totals: Totals {
            input_tokens: 100,
            cached_input_tokens: 10,
            output_tokens: 50,
            reasoning_output_tokens: 0,
            total_tokens: 150,
            cost_usd: usd(0.25),
        },
        missing_directories: Vec::new(),
    };
    let session = ReportOutput::Session {
        rows: vec![SessionRow {
            session_id: "team/session".to_string(),
            directory: "team".to_string(),
            session_file: "session".to_string(),
            last_activity: "2025-09-11T18:00:00.000Z".to_string(),
            input_tokens: 100,
            cached_input_tokens: 10,
            output_tokens: 50,
            reasoning_output_tokens: 0,
            total_tokens: 150,
            cost_usd: usd(0.25),
            models: models([(
                "gpt-5".to_string(),
                ModelBreakdown {
                    input_tokens: 100,
                    cached_input_tokens: 10,
                    output_tokens: 50,
                    reasoning_output_tokens: 0,
                    total_tokens: 150,
                    cost_usd: usd(0.0),
                    is_fallback: false,
                    ..ModelBreakdown::default()
                },
            )]),
        }],
        totals: Totals {
            input_tokens: 100,
            cached_input_tokens: 10,
            output_tokens: 50,
            reasoning_output_tokens: 0,
            total_tokens: 150,
            cost_usd: usd(0.25),
        },
        missing_directories: Vec::new(),
    };

    let daily_render =
        render_report(&daily, shown_in(NumberFormat::Short), CacheReadMode::Include);
    let session_render = render_report(&session, shown_in(NumberFormat::Short), CacheReadMode::Include);
    assert!(daily_render.contains("TOTAL"));
    assert!(daily_render.contains("2025-09-11"));
    assert!(daily_render.contains("Model"));
    assert!(daily_render.contains("gpt-5-codex"));
    assert!(session_render.contains("session"));
    assert!(session_render.contains("gpt-5"));
    assert!(session_render.contains("Last Activity"));
}

#[test]
fn behavior_checks_render_report_includes_totals_for_daily_and_session_views() {
    let daily = ReportOutput::Daily {
        rows: vec![DailyRow {
            date: "2025-09-11".to_string(),
            input_tokens: 100,
            cached_input_tokens: 10,
            output_tokens: 50,
            reasoning_output_tokens: 0,
            total_tokens: 150,
            cost_usd: usd(0.25),
            models: models([
                (
                    "gpt-5".to_string(),
                    ModelBreakdown {
                        input_tokens: 60,
                        cached_input_tokens: 5,
                        output_tokens: 25,
                        reasoning_output_tokens: 0,
                        total_tokens: 85,
                        cost_usd: usd(0.0),
                        is_fallback: false,
                        ..ModelBreakdown::default()
                    },
                ),
                (
                    "gpt-5-codex".to_string(),
                    ModelBreakdown {
                        input_tokens: 40,
                        cached_input_tokens: 5,
                        output_tokens: 25,
                        reasoning_output_tokens: 0,
                        total_tokens: 65,
                        cost_usd: usd(0.0),
                        is_fallback: false,
                        ..ModelBreakdown::default()
                    },
                ),
            ]),
        }],
        totals: Totals {
            input_tokens: 100,
            cached_input_tokens: 10,
            output_tokens: 50,
            reasoning_output_tokens: 0,
            total_tokens: 150,
            cost_usd: usd(0.25),
        },
        missing_directories: Vec::new(),
    };
    let session = ReportOutput::Session {
        rows: vec![SessionRow {
            session_id: "team/session".to_string(),
            directory: "team".to_string(),
            session_file: "session".to_string(),
            last_activity: "2025-09-11T18:00:00.000Z".to_string(),
            input_tokens: 100,
            cached_input_tokens: 10,
            output_tokens: 50,
            reasoning_output_tokens: 0,
            total_tokens: 150,
            cost_usd: usd(0.25),
            models: models([(
                "gpt-5".to_string(),
                ModelBreakdown {
                    input_tokens: 100,
                    cached_input_tokens: 10,
                    output_tokens: 50,
                    reasoning_output_tokens: 0,
                    total_tokens: 150,
                    cost_usd: usd(0.0),
                    is_fallback: false,
                    ..ModelBreakdown::default()
                },
            )]),
        }],
        totals: Totals {
            input_tokens: 100,
            cached_input_tokens: 10,
            output_tokens: 50,
            reasoning_output_tokens: 0,
            total_tokens: 150,
            cost_usd: usd(0.25),
        },
        missing_directories: Vec::new(),
    };

    let daily_render =
        render_report(&daily, shown_in(NumberFormat::Short), CacheReadMode::Include);
    let session_render = render_report(&session, shown_in(NumberFormat::Short), CacheReadMode::Include);
    assert!(daily_render.contains("TOTAL"));
    assert!(daily_render.contains("2025-09-11"));
    assert!(daily_render.contains("Model"));
    assert!(daily_render.contains("gpt-5-codex"));
    assert!(session_render.contains("session"));
    assert!(session_render.contains("gpt-5"));
    assert!(session_render.contains("Last Activity"));
}

#[test]
fn app_render_report_handles_monthly_rows() {
    let monthly = ReportOutput::Monthly {
        rows: vec![MonthlyRow {
            month: "2025-09".to_string(),
            input_tokens: 120,
            cached_input_tokens: 20,
            output_tokens: 80,
            reasoning_output_tokens: 10,
            total_tokens: 200,
            cost_usd: usd(0.75),
            models: TextMap::new(),
        }],
        totals: Totals {
            input_tokens: 120,
            cached_input_tokens: 20,
            output_tokens: 80,
            reasoning_output_tokens: 10,
            total_tokens: 200,
            cost_usd: usd(0.75),
        },
        missing_directories: Vec::new(),
    };

    let rendered = render_report(&monthly, shown_in(NumberFormat::Short), CacheReadMode::Include);
    assert!(rendered.contains("Monthly Codex Usage Report"));
    assert!(rendered.contains("2025-09"));
}

#[test]
fn behavior_checks_render_report_handles_monthly_rows() {
    let monthly = ReportOutput::Monthly {
        rows: vec![MonthlyRow {
            month: "2025-09".to_string(),
            input_tokens: 120,
            cached_input_tokens: 20,
            output_tokens: 80,
            reasoning_output_tokens: 10,
            total_tokens: 200,
            cost_usd: usd(0.75),
            models: TextMap::new(),
        }],
        totals: Totals {
            input_tokens: 120,
            cached_input_tokens: 20,
            output_tokens: 80,
            reasoning_output_tokens: 10,
            total_tokens: 200,
            cost_usd: usd(0.75),
        },
        missing_directories: Vec::new(),
    };

    let rendered = render_report(&monthly, shown_in(NumberFormat::Short), CacheReadMode::Include);
    assert!(rendered.contains("Monthly Codex Usage Report"));
    assert!(rendered.contains("2025-09"));
}

#[test]
fn app_render_report_omits_cache_column_when_cache_read_is_excluded() {
    let daily = ReportOutput::Daily {
        rows: vec![DailyRow {
            date: "2025-09-11".to_string(),
            input_tokens: 80,
            cached_input_tokens: 0,
            output_tokens: 20,
            reasoning_output_tokens: 0,
            total_tokens: 100,
            cost_usd: usd(0.25),
            models: TextMap::new(),
        }],
        totals: Totals {
            input_tokens: 80,
            cached_input_tokens: 0,
            output_tokens: 20,
            reasoning_output_tokens: 0,
            total_tokens: 100,
            cost_usd: usd(0.25),
        },
        missing_directories: Vec::new(),
    };

    let rendered = render_report(&daily, shown_in(NumberFormat::Short), CacheReadMode::Exclude);

    assert!(!rendered.contains("Cache"));
    assert!(rendered.contains("Input"));
    assert!(rendered.contains("Output"));
}

#[test]
fn behavior_checks_render_report_omits_cache_column_when_cache_read_is_excluded() {
    let daily = ReportOutput::Daily {
        rows: vec![DailyRow {
            date: "2025-09-11".to_string(),
            input_tokens: 80,
            cached_input_tokens: 0,
            output_tokens: 20,
            reasoning_output_tokens: 0,
            total_tokens: 100,
            cost_usd: usd(0.25),
            models: TextMap::new(),
        }],
        totals: Totals {
            input_tokens: 80,
            cached_input_tokens: 0,
            output_tokens: 20,
            reasoning_output_tokens: 0,
            total_tokens: 100,
            cost_usd: usd(0.25),
        },
        missing_directories: Vec::new(),
    };

    let rendered = render_report(&daily, shown_in(NumberFormat::Short), CacheReadMode::Exclude);

    assert!(!rendered.contains("Cache"));
    assert!(rendered.contains("Input"));
    assert!(rendered.contains("Output"));
}

#[test]
fn app_render_report_groups_model_rows_under_daily_subtotal() {
    let daily = ReportOutput::Daily {
        rows: vec![DailyRow {
            date: "2025-09-11".to_string(),
            input_tokens: 120,
            cached_input_tokens: 20,
            output_tokens: 80,
            reasoning_output_tokens: 10,
            total_tokens: 200,
            cost_usd: usd(0.75),
            models: models([
                (
                    "gpt-5".to_string(),
                    ModelBreakdown {
                        input_tokens: 70,
                        cached_input_tokens: 10,
                        output_tokens: 40,
                        reasoning_output_tokens: 5,
                        total_tokens: 110,
                        cost_usd: usd(0.0),
                        is_fallback: false,
                        ..ModelBreakdown::default()
                    },
                ),
                (
                    "gpt-5-codex".to_string(),
                    ModelBreakdown {
                        input_tokens: 50,
                        cached_input_tokens: 10,
                        output_tokens: 40,
                        reasoning_output_tokens: 5,
                        total_tokens: 90,
                        cost_usd: usd(0.0),
                        is_fallback: false,
                        ..ModelBreakdown::default()
                    },
                ),
            ]),
        }],
        totals: Totals {
            input_tokens: 120,
            cached_input_tokens: 20,
            output_tokens: 80,
            reasoning_output_tokens: 10,
            total_tokens: 200,
            cost_usd: usd(0.75),
        },
        missing_directories: Vec::new(),
    };

    let rendered = render_report(&daily, shown_in(NumberFormat::Short), CacheReadMode::Include);
    let subtotal = rendered
        .lines()
        .find(|line| line.contains("2025-09-11") && line.contains("TOTAL"))
        .expect("subtotal row");
    let gpt5 = rendered
        .lines()
        .find(|line| line.contains("gpt-5") && !line.contains("TOTAL"))
        .expect("gpt-5 row");
    let codex = rendered
        .lines()
        .find(|line| line.contains("gpt-5-codex"))
        .expect("gpt-5-codex row");

    assert!(subtotal.contains("120"));
    assert!(!gpt5.contains("2025-09-11"));
    assert!(gpt5.contains("70"));
    assert!(codex.contains("50"));
}

#[test]
fn behavior_checks_render_report_groups_model_rows_under_daily_subtotal() {
    let daily = ReportOutput::Daily {
        rows: vec![DailyRow {
            date: "2025-09-11".to_string(),
            input_tokens: 120,
            cached_input_tokens: 20,
            output_tokens: 80,
            reasoning_output_tokens: 10,
            total_tokens: 200,
            cost_usd: usd(0.75),
            models: models([
                (
                    "gpt-5".to_string(),
                    ModelBreakdown {
                        input_tokens: 70,
                        cached_input_tokens: 10,
                        output_tokens: 40,
                        reasoning_output_tokens: 5,
                        total_tokens: 110,
                        cost_usd: usd(0.0),
                        is_fallback: false,
                        ..ModelBreakdown::default()
                    },
                ),
                (
                    "gpt-5-codex".to_string(),
                    ModelBreakdown {
                        input_tokens: 50,
                        cached_input_tokens: 10,
                        output_tokens: 40,
                        reasoning_output_tokens: 5,
                        total_tokens: 90,
                        cost_usd: usd(0.0),
                        is_fallback: false,
                        ..ModelBreakdown::default()
                    },
                ),
            ]),
        }],
        totals: Totals {
            input_tokens: 120,
            cached_input_tokens: 20,
            output_tokens: 80,
            reasoning_output_tokens: 10,
            total_tokens: 200,
            cost_usd: usd(0.75),
        },
        missing_directories: Vec::new(),
    };

    let rendered = render_report(&daily, shown_in(NumberFormat::Short), CacheReadMode::Include);
    let subtotal = rendered
        .lines()
        .find(|line| line.contains("2025-09-11") && line.contains("TOTAL"))
        .expect("subtotal row");
    let gpt5 = rendered
        .lines()
        .find(|line| line.contains("gpt-5") && !line.contains("TOTAL"))
        .expect("gpt-5 row");
    let codex = rendered
        .lines()
        .find(|line| line.contains("gpt-5-codex"))
        .expect("gpt-5-codex row");

    assert!(subtotal.contains("120"));
    assert!(!gpt5.contains("2025-09-11"));
    assert!(gpt5.contains("70"));
    assert!(codex.contains("50"));
}

#[test]
fn app_render_report_keeps_last_activity_on_session_subtotal_only() {
    let session = ReportOutput::Session {
        rows: vec![SessionRow {
            session_id: "team/session".to_string(),
            directory: "team".to_string(),
            session_file: "session".to_string(),
            last_activity: "2025-09-11T18:00:00.000Z".to_string(),
            input_tokens: 100,
            cached_input_tokens: 10,
            output_tokens: 50,
            reasoning_output_tokens: 0,
            total_tokens: 150,
            cost_usd: usd(0.25),
            models: models([(
                "gpt-5".to_string(),
                ModelBreakdown {
                    input_tokens: 100,
                    cached_input_tokens: 10,
                    output_tokens: 50,
                    reasoning_output_tokens: 0,
                    total_tokens: 150,
                    cost_usd: usd(0.0),
                    is_fallback: false,
                    ..ModelBreakdown::default()
                },
            )]),
        }],
        totals: Totals {
            input_tokens: 100,
            cached_input_tokens: 10,
            output_tokens: 50,
            reasoning_output_tokens: 0,
            total_tokens: 150,
            cost_usd: usd(0.25),
        },
        missing_directories: Vec::new(),
    };

    let rendered = render_report(&session, shown_in(NumberFormat::Short), CacheReadMode::Include);
    let subtotal = rendered
        .lines()
        .find(|line| line.contains("session") && line.contains("TOTAL"))
        .expect("subtotal row");
    let model_row = rendered
        .lines()
        .find(|line| line.contains("gpt-5"))
        .expect("model row");

    assert!(subtotal.contains("2025-09-11T18:00:00.000Z"));
    assert!(!model_row.contains("2025-09-11T18:00:00.000Z"));
}

#[test]
fn behavior_checks_render_report_keeps_last_activity_on_session_subtotal_only() {
    let session = ReportOutput::Session {
        rows: vec![SessionRow {
            session_id: "team/session".to_string(),
            directory: "team".to_string(),
            session_file: "session".to_string(),
            last_activity: "2025-09-11T18:00:00.000Z".to_string(),
            input_tokens: 100,
            cached_input_tokens: 10,
            output_tokens: 50,
            reasoning_output_tokens: 0,
            total_tokens: 150,
            cost_usd: usd(0.25),
            models: models([(
                "gpt-5".to_string(),
                ModelBreakdown {
                    input_tokens: 100,
                    cached_input_tokens: 10,
                    output_tokens: 50,
                    reasoning_output_tokens: 0,
                    total_tokens: 150,
                    cost_usd: usd(0.0),
                    is_fallback: false,
                    ..ModelBreakdown::default()
                },
            )]),
        }],
        totals: Totals {
            input_tokens: 100,
            cached_input_tokens: 10,
            output_tokens: 50,
            reasoning_output_tokens: 0,
            total_tokens: 150,
            cost_usd: usd(0.25),
        },
        missing_directories: Vec::new(),
    };

    let rendered = render_report(&session, shown_in(NumberFormat::Short), CacheReadMode::Include);
    let subtotal = rendered
        .lines()
        .find(|line| line.contains("session") && line.contains("TOTAL"))
        .expect("subtotal row");
    let model_row = rendered
        .lines()
        .find(|line| line.contains("gpt-5"))
        .expect("model row");

    assert!(subtotal.contains("2025-09-11T18:00:00.000Z"));
    assert!(!model_row.contains("2025-09-11T18:00:00.000Z"));
}

#[test]
fn app_render_report_splits_mixed_fallback_and_explicit_usage_for_same_model() {
    let report = ReportOutput::Daily {
        rows: vec![DailyRow {
            date: "2025-09-11".to_string(),
            input_tokens: 100,
            cached_input_tokens: 10,
            output_tokens: 50,
            reasoning_output_tokens: 0,
            total_tokens: 150,
            cost_usd: usd(0.25),
            models: models([(
                "gpt-5".to_string(),
                ModelBreakdown {
                    input_tokens: 100,
                    cached_input_tokens: 10,
                    output_tokens: 50,
                    reasoning_output_tokens: 0,
                    total_tokens: 150,
                    cost_usd: usd(0.20),
                    fallback_usage: UsageTotals {
                        input: 20,
                        cached_input: 0,
                        output: 10,
                        reasoning_output: 0,
                        total: 30,
                    },
                    fallback_cost_usd: usd(0.05),
                    is_fallback: true,
                },
            )]),
        }],
        totals: Totals {
            input_tokens: 100,
            cached_input_tokens: 10,
            output_tokens: 50,
            reasoning_output_tokens: 0,
            total_tokens: 150,
            cost_usd: usd(0.25),
        },
        missing_directories: Vec::new(),
    };

    let rendered = render_report(&report, shown_in(NumberFormat::Short), CacheReadMode::Include);
    let explicit_row = rendered
        .lines()
        .find(|line| line.contains("  gpt-5") && !line.contains("(fallback)"))
        .expect("explicit row");
    let fallback_row = rendered
        .lines()
        .find(|line| line.contains("  gpt-5 (fallback)"))
        .expect("fallback row");

    assert!(explicit_row.contains("80"));
    assert!(explicit_row.contains("$0.20"));
    assert!(fallback_row.contains("20"));
    assert!(fallback_row.contains("$0.05"));
}

#[test]
fn behavior_checks_render_report_splits_mixed_fallback_and_explicit_usage_for_same_model() {
    let report = ReportOutput::Daily {
        rows: vec![DailyRow {
            date: "2025-09-11".to_string(),
            input_tokens: 100,
            cached_input_tokens: 10,
            output_tokens: 50,
            reasoning_output_tokens: 0,
            total_tokens: 150,
            cost_usd: usd(0.25),
            models: models([(
                "gpt-5".to_string(),
                ModelBreakdown {
                    input_tokens: 100,
                    cached_input_tokens: 10,
                    output_tokens: 50,
                    reasoning_output_tokens: 0,
                    total_tokens: 150,
                    cost_usd: usd(0.20),
                    fallback_usage: UsageTotals {
                        input: 20,
                        cached_input: 0,
                        output: 10,
                        reasoning_output: 0,
                        total: 30,
                    },
                    fallback_cost_usd: usd(0.05),
                    is_fallback: true,
                },
            )]),
        }],
        totals: Totals {
            input_tokens: 100,
            cached_input_tokens: 10,
            output_tokens: 50,
            reasoning_output_tokens: 0,
            total_tokens: 150,
            cost_usd: usd(0.25),
        },
        missing_directories: Vec::new(),
    };

    let rendered = render_report(&report, shown_in(NumberFormat::Short), CacheReadMode::Include);
    let explicit_row = rendered
        .lines()
        .find(|line| line.contains("  gpt-5") && !line.contains("(fallback)"))
        .expect("explicit row");
    let fallback_row = rendered
        .lines()
        .find(|line| line.contains("  gpt-5 (fallback)"))
        .expect("fallback row");

    assert!(explicit_row.contains("80"));
    assert!(explicit_row.contains("$0.20"));
    assert!(fallback_row.contains("20"));
    assert!(fallback_row.contains("$0.05"));
}

#[test]
fn app_render_report_surfaces_missing_directories() {
    let daily = ReportOutput::Daily {
        rows: Vec::new(),
        totals: Totals::default(),
        missing_directories: vec!["/tmp/missing-a".to_string(), "/tmp/missing-b".to_string()],
    };

    let rendered = render_report(&daily, shown_in(NumberFormat::Short), CacheReadMode::Include);
    assert!(rendered.contains("Warning: missing session directories"));
    assert!(rendered.contains("/tmp/missing-a"));
    assert!(rendered.contains("/tmp/missing-b"));
}

#[test]
fn behavior_checks_render_report_surfaces_missing_directories() {
    let daily = ReportOutput::Daily {
        rows: Vec::new(),
        totals: Totals::default(),
        missing_directories: vec!["/tmp/missing-a".to_string(), "/tmp/missing-b".to_string()],
    };

    let rendered = render_report(&daily, shown_in(NumberFormat::Short), CacheReadMode::Include);
    assert!(rendered.contains("Warning: missing session directories"));
    assert!(rendered.contains("/tmp/missing-a"));
    assert!(rendered.contains("/tmp/missing-b"));
}

#[test]
fn app_render_report_shortens_token_columns_but_not_cost_by_default() {
    let daily = ReportOutput::Daily {
        rows: vec![DailyRow {
            date: "2025-09-11".to_string(),
            input_tokens: 100_000,
            cached_input_tokens: 10,
            output_tokens: 50,
            reasoning_output_tokens: 0,
            total_tokens: 100_050,
            cost_usd: usd(1234.5),
            models: TextMap::new(),
        }],
        totals: Totals {
            input_tokens: 100_000,
            cached_input_tokens: 10,
            output_tokens: 50,
            reasoning_output_tokens: 0,
            total_tokens: 100_050,
            cost_usd: usd(1234.5),
        },
        missing_directories: Vec::new(),
    };

    let short = render_report(&daily, shown_in(NumberFormat::Short), CacheReadMode::Include);
    let full = render_report(&daily, shown_in(NumberFormat::Full), CacheReadMode::Include);

    assert!(short.contains("100K"));
    assert!(short.contains("$1234.50"));
    assert!(full.contains("100,000"));
    assert!(!full.contains("100K"));
}

#[test]
fn behavior_checks_render_report_shortens_token_columns_but_not_cost_by_default() {
    let daily = ReportOutput::Daily {
        rows: vec![DailyRow {
            date: "2025-09-11".to_string(),
            input_tokens: 100_000,
            cached_input_tokens: 10,
            output_tokens: 50,
            reasoning_output_tokens: 0,
            total_tokens: 100_050,
            cost_usd: usd(1234.5),
            models: TextMap::new(),
        }],
        totals: Totals {
            input_tokens: 100_000,
            cached_input_tokens: 10,
            output_tokens: 50,
            reasoning_output_tokens: 0,
            total_tokens: 100_050,
            cost_usd: usd(1234.5),
        },
        missing_directories: Vec::new(),
    };

    let short = render_report(&daily, shown_in(NumberFormat::Short), CacheReadMode::Include);
    let full = render_report(&daily, shown_in(NumberFormat::Full), CacheReadMode::Include);

    assert!(short.contains("100K"));
    assert!(short.contains("$1234.50"));
    assert!(full.contains("100,000"));
    assert!(!full.contains("100K"));
}

#[test]
fn app_full_number_format_keeps_table_frame_aligned_for_grouped_digits() {
    let daily = ReportOutput::Daily {
        rows: vec![DailyRow {
            date: "2025-09-11".to_string(),
            input_tokens: 1_000,
            cached_input_tokens: 2_000,
            output_tokens: 3_000,
            reasoning_output_tokens: 4_000,
            total_tokens: 5_000,
            cost_usd: usd(12.5),
            models: TextMap::new(),
        }],
        totals: Totals {
            input_tokens: 1_000,
            cached_input_tokens: 2_000,
            output_tokens: 3_000,
            reasoning_output_tokens: 4_000,
            total_tokens: 5_000,
            cost_usd: usd(12.5),
        },
        missing_directories: Vec::new(),
    };

    let rendered = render_report(&daily, shown_in(NumberFormat::Full), CacheReadMode::Include);
    let lines = rendered
        .lines()
        .map(strip_ansi_sequences)
        .collect::<Vec<_>>();
    let top = lines
        .iter()
        .find(|line| line.starts_with('+') || line.starts_with('┌'))
        .expect("top border");
    let subtotal = lines
        .iter()
        .find(|line| line.contains("2025-09-11") && line.contains("1,000"))
        .expect("subtotal row");

    assert_eq!(top.chars().count(), subtotal.chars().count());
}

#[test]
fn behavior_checks_full_number_format_keeps_table_frame_aligned_for_grouped_digits() {
    let daily = ReportOutput::Daily {
        rows: vec![DailyRow {
            date: "2025-09-11".to_string(),
            input_tokens: 1_000,
            cached_input_tokens: 2_000,
            output_tokens: 3_000,
            reasoning_output_tokens: 4_000,
            total_tokens: 5_000,
            cost_usd: usd(12.5),
            models: TextMap::new(),
        }],
        totals: Totals {
            input_tokens: 1_000,
            cached_input_tokens: 2_000,
            output_tokens: 3_000,
            reasoning_output_tokens: 4_000,
            total_tokens: 5_000,
            cost_usd: usd(12.5),
        },
        missing_directories: Vec::new(),
    };

    let rendered = render_report(&daily, shown_in(NumberFormat::Full), CacheReadMode::Include);
    let lines = rendered
        .lines()
        .map(strip_ansi_sequences)
        .collect::<Vec<_>>();
    let top = lines
        .iter()
        .find(|line| line.starts_with('+') || line.starts_with('┌'))
        .expect("top border");
    let subtotal = lines
        .iter()
        .find(|line| line.contains("2025-09-11") && line.contains("1,000"))
        .expect("subtotal row");

    assert_eq!(top.chars().count(), subtotal.chars().count());
}

fn breakdown(input: u64, cached: u64, output: u64, reasoning: u64, total: u64, cost: f64) -> ModelBreakdown {
    ModelBreakdown {
        input_tokens: input,
        cached_input_tokens: cached,
        output_tokens: output,
        reasoning_output_tokens: reasoning,
        total_tokens: total,
        cost_usd: usd(cost),
        ..ModelBreakdown::default()
    }
}

#[test]
fn daily_report_has_the_documented_layout() {
    let report = ReportOutput::Daily {
        rows: vec![
            DailyRow {
                date: "2026-03-01".to_string(),
                input_tokens: 120_000,
                cached_input_tokens: 30_000,
                output_tokens: 8_000,
                reasoning_output_tokens: 4_000,
                total_tokens: 158_000,
                cost_usd: usd(0.20),
                models: models([(
                    "gpt-5".to_string(),
                    breakdown(120_000, 30_000, 8_000, 4_000, 158_000, 0.20),
                )]),
            },
            DailyRow {
                date: "2026-03-02".to_string(),
                input_tokens: 90_000,
                cached_input_tokens: 20_000,
                output_tokens: 6_000,
                reasoning_output_tokens: 2_000,
                total_tokens: 118_000,
                cost_usd: usd(0.03),
                models: models([(
                    "gpt-5-mini".to_string(),
                    breakdown(90_000, 20_000, 6_000, 2_000, 118_000, 0.03),
                )]),
            },
        ],
        totals: Totals {
            input_tokens: 210_000,
            cached_input_tokens: 50_000,
            output_tokens: 14_000,
            reasoning_output_tokens: 6_000,
            total_tokens: 276_000,
            cost_usd: usd(0.23),
        },
        missing_directories: Vec::new(),
    };
    let rendered = render_report(&report, shown_in(NumberFormat::Short), CacheReadMode::Include);
    let expected = [
        "Daily Codex Usage Report",
        "",
        "+------------+--------------+-------+-------+--------+-----------+-------+-------+",
        "| Date       | Model        | Input | Cache | Output | Reasoning | Total |  Cost |",
        "+------------+--------------+-------+-------+--------+-----------+-------+-------+",
        "| 2026-03-01 | TOTAL        |  120K |   30K |     8K |        4K |  158K | $0.20 |",
        "|            |   gpt-5      |  120K |   30K |     8K |        4K |  158K | $0.20 |",
        "+------------+--------------+-------+-------+--------+-----------+-------+-------+",
        "| 2026-03-02 | TOTAL        |   90K |   20K |     6K |        2K |  118K | $0.03 |",
        "|            |   gpt-5-mini |   90K |   20K |     6K |        2K |  118K | $0.03 |",
        "|            | GRAND TOTAL  |  210K |   50K |    14K |        6K |  276K | $0.23 |",
        "+------------+--------------+-------+-------+--------+-----------+-------+-------+",
    ]
    .join("\n");
    assert_eq!(rendered.trim_end(), expected);
}

#[test]
fn missing_directories_are_listed_before_the_report() {
    assert_eq!(missing_directory_warning(&Vec::new()), None);
    assert_eq!(
        missing_directory_warning(&vec!["/a".to_string(), "/b".to_string()]).as_deref(),
        Some("Warning: missing session directories\n- /a\n- /b\n\n")
    );
}

#[test]
fn usage_cells_follow_the_cache_read_mode() {
    let usage = UsageTotals {
        input: 1,
        cached_input: 2,
        output: 3,
        reasoning_output: 4,
        total: 5,
    };
    let mut cells = vec!["x".to_string()];
    append_usage_cells(&mut cells, &usage, usd(0.5), CacheReadMode::Include);
    assert_eq!(cells, vec!["x", "1", "2", "3", "4", "5", "$0.50"]);
    let mut without_cache: Vec<String> = Vec::new();
    append_usage_cells(&mut without_cache, &usage, usd(0.5), CacheReadMode::Exclude);
    assert_eq!(without_cache, vec!["1", "3", "4", "5", "$0.50"]);
    let row = model_display_row(1, true, "gpt-5", &usage, usd(0.5), CacheReadMode::Include);
    assert_eq!(row.cells, vec!["", "  gpt-5", "1", "2", "3", "4", "5", "$0.50", ""]);
    assert_eq!(row.kind, DisplayRowKind::Detail);
}

#[test]
fn grand_total_fills_the_known_columns() {
    let totals = Totals {
        input_tokens: 1,
        cached_input_tokens: 2,
        output_tokens: 3,
        reasoning_output_tokens: 4,
        total_tokens: 5,
        cost_usd: usd(6.0),
    };
    let row = grand_total_row(&["Date", "Model", "Input", "Output", "Reasoning", "Total", "Cost"], &totals);
    assert_eq!(row.cells, vec!["", "GRAND TOTAL", "1", "3", "4", "5", "$6.00"]);
    assert_eq!(row.kind, DisplayRowKind::GrandTotal);
}

#[test]
fn daily_groups_are_kept_apart_by_spacers() {
    let day = |date: &str| DailyRow {
        date: date.to_string(),
        input_tokens: 1,
        cached_input_tokens: 0,
        output_tokens: 1,
        reasoning_output_tokens: 0,
        total_tokens: 2,
        cost_usd: UsdAmount::zero(),
        models: TextMap::new(),
    };
    let rows = daily_display_rows(&vec![day("2026-01-01"), day("2026-01-02")], CacheReadMode::Include);
    let kinds = rows.iter().map(|row| row.kind).collect::<Vec<_>>();
    assert_eq!(
        kinds,
        vec![
            DisplayRowKind::Subtotal,
            DisplayRowKind::Spacer,
            DisplayRowKind::Subtotal,
        ]
    );
}
